//! When batches are compacted, and how many compactions run at a time.

use crate::cfg::PersistConfig;
use crate::fetch::{
    accumulated, consolidate_updates, each_once, consolidated, magnitude, updates_view, Update,
};
use crate::frontier::{joined, Frontier};
use crate::model::BatchView;
use crate::state::{HollowBatch, State};
use vstd::prelude::*;

verus! {

/// The number of parts of the batches together.
pub open spec fn total_parts(batches: Seq<BatchView>) -> nat
    decreases batches.len(),
{
    if batches.len() == 0 {
        0
    } else {
        total_parts(batches.drop_last()) + batches.last().parts.len()
    }
}

/// The number of updates of the batches together.
pub open spec fn total_updates(batches: Seq<BatchView>) -> nat
    decreases batches.len(),
{
    if batches.len() == 0 {
        0
    } else {
        total_updates(batches.drop_last()) + batches.last().len
    }
}

/// Whether batches are worth compacting: there are enough of them, or they
/// have enough parts, or enough updates.
pub open spec fn compaction_due(cfg: PersistConfig, inputs: Seq<BatchView>) -> bool {
    ||| inputs.len() >= cfg.compaction_heuristic_min_inputs
    ||| total_parts(inputs) >= cfg.compaction_heuristic_min_parts
    ||| total_updates(inputs) >= cfg.compaction_heuristic_min_updates
}

/// The first batches have no more parts and updates than all of them.
proof fn lemma_totals_grow(batches: Seq<BatchView>, n: int)
    requires
        0 <= n <= batches.len(),
    ensures
        total_parts(batches.take(n)) <= total_parts(batches),
        total_updates(batches.take(n)) <= total_updates(batches),
    decreases batches.len() - n,
{
    if n == batches.len() {
        assert(batches.take(n) =~= batches);
    } else {
        lemma_totals_grow(batches, n + 1);
        assert(batches.take(n + 1).drop_last() =~= batches.take(n));
    }
}

/// Decides whether batches are worth compacting.
pub fn should_compact(cfg: &PersistConfig, inputs: &Vec<HollowBatch>) -> (due: bool)
    ensures
        due == compaction_due(*cfg, State::batches_view(inputs@)),
{
    let ghost views = State::batches_view(inputs@);
    if inputs.len() >= cfg.compaction_heuristic_min_inputs {
        return true;
    }
    let mut parts: usize = 0;
    let mut updates: usize = 0;
    let mut i: usize = 0;
    while i < inputs.len()
        invariant
            i <= inputs.len(),
            views == State::batches_view(inputs@),
            parts == total_parts(views.take(i as int)),
            updates == total_updates(views.take(i as int)),
        decreases inputs.len() - i,
    {
        let batch = &inputs[i];
        proof {
            assert(views.take(i + 1).drop_last() =~= views.take(i as int));
            assert(views.take(i + 1).last() == batch@);
            lemma_totals_grow(views, i + 1);
        }
        if batch.parts.len() > usize::MAX - parts || batch.len > usize::MAX - updates {
            // More than can be counted is more than any threshold.
            return true;
        }
        parts = parts + batch.parts.len();
        updates = updates + batch.len;
        i += 1;
    }
    proof {
        assert(views.take(i as int) =~= views);
    }
    parts >= cfg.compaction_heuristic_min_parts || updates >= cfg.compaction_heuristic_min_updates
}

/// What becomes of a request for a compaction.
#[derive(Debug, PartialEq, Eq, Clone, Copy)]
pub enum Admission {
    /// The compaction starts now.
    Start,
    /// The compaction waits for one that is running to end.
    Queued,
    /// Too many compactions wait already: this one is dropped.
    Dropped,
}

/// The compactions of one shard: how many run, and how many wait.
#[derive(Debug, PartialEq, Eq, Clone, Copy)]
pub struct CompactionQueue {
    /// The number of compactions that run.
    pub active: usize,
    /// The number of compactions that wait.
    pub queued: usize,
    /// The number of compactions that may run at a time.
    pub concurrency_limit: usize,
    /// The number of compactions that may wait at a time.
    pub queue_size: usize,
}

impl CompactionQueue {
    /// No more compactions run or wait than may.
    pub open spec fn wf(&self) -> bool {
        self.active <= self.concurrency_limit && self.queued <= self.queue_size
    }

    /// A queue in which nothing runs or waits, with the limits of the configuration.
    pub fn new(cfg: &PersistConfig) -> (queue: CompactionQueue)
        ensures
            queue.wf(),
            queue == (CompactionQueue {
                active: 0,
                queued: 0,
                concurrency_limit: cfg.compaction_concurrency_limit,
                queue_size: cfg.compaction_queue_size,
            }),
    {
        CompactionQueue {
            active: 0,
            queued: 0,
            concurrency_limit: cfg.compaction_concurrency_limit,
            queue_size: cfg.compaction_queue_size,
        }
    }

    /// Takes a request for a compaction: it starts if fewer compactions run than
    /// may, waits if fewer wait than may, and is dropped otherwise.
    pub fn request(&mut self) -> (r: Admission)
        requires
            old(self).wf(),
        ensures
            final(self).wf(),
            final(self).concurrency_limit == old(self).concurrency_limit,
            final(self).queue_size == old(self).queue_size,
            r == (if old(self).active < old(self).concurrency_limit {
                Admission::Start
            } else if old(self).queued < old(self).queue_size {
                Admission::Queued
            } else {
                Admission::Dropped
            }),
            final(self).active == old(self).active + (if r == Admission::Start {
                1int
            } else {
                0int
            }),
            final(self).queued == old(self).queued + (if r == Admission::Queued {
                1int
            } else {
                0int
            }),
    {
        if self.active < self.concurrency_limit {
            self.active = self.active + 1;
            Admission::Start
        } else if self.queued < self.queue_size {
            self.queued = self.queued + 1;
            Admission::Queued
        } else {
            Admission::Dropped
        }
    }

    /// Takes note that a compaction has ended, and says whether one that
    /// waited starts in its place.
    pub fn finished(&mut self) -> (next_starts: bool)
        requires
            old(self).wf(),
            old(self).active > 0,
        ensures
            final(self).wf(),
            final(self).concurrency_limit == old(self).concurrency_limit,
            final(self).queue_size == old(self).queue_size,
            next_starts == (old(self).queued > 0),
            final(self).active == (if next_starts {
                old(self).active as int
            } else {
                old(self).active - 1
            }),
            final(self).queued == (if next_starts {
                old(self).queued - 1
            } else {
                0int
            }),
    {
        if self.queued > 0 {
            self.queued = self.queued - 1;
            true
        } else {
            self.active = self.active - 1;
            false
        }
    }
}


/// The updates, each moved to the least time at or after its own that the since
/// has not passed.
pub open spec fn moved_by(updates: Seq<(Seq<u8>, Seq<u8>, u64, i64)>, since: Seq<u64>) -> Seq<
    (Seq<u8>, Seq<u8>, u64, i64),
> {
    updates.map_values(
        |u: (Seq<u8>, Seq<u8>, u64, i64)| (u.0, u.1, joined(u.2, since), u.3),
    )
}

/// Moving updates in time leaves the sizes of their diffs as they are.
proof fn lemma_moved_magnitude(updates: Seq<(Seq<u8>, Seq<u8>, u64, i64)>, since: Seq<u64>)
    ensures
        magnitude(moved_by(updates, since)) == magnitude(updates),
    decreases updates.len(),
{
    if updates.len() > 0 {
        lemma_moved_magnitude(updates.drop_last(), since);
        assert(moved_by(updates, since).drop_last() =~= moved_by(updates.drop_last(), since));
    }
}

/// The updates of a compacted batch: those of its inputs, with the times that
/// the since of the shard has passed folded together, consolidated.
///
/// For each key, value and time the diffs of the result add up to what those
/// of the moved inputs add up to.
pub fn compact_updates(inputs: &Vec<Update>, since: &Frontier) -> (output: Vec<Update>)
    requires
        magnitude(updates_view(inputs@)) <= i64::MAX,
    ensures
        updates_view(output@) == consolidated(moved_by(updates_view(inputs@), since@)),
        forall|key: Seq<u8>, val: Seq<u8>, ts: u64|
            #![trigger accumulated(updates_view(output@), key, val, ts)]
            accumulated(updates_view(output@), key, val, ts) == accumulated(
                moved_by(updates_view(inputs@), since@),
                key,
                val,
                ts,
            ),
        forall|i: int| 0 <= i < output@.len() ==> (#[trigger] output@[i]).diff != 0,
        each_once(updates_view(output@)),
{
    let mut moved: Vec<Update> = Vec::new();
    let mut i: usize = 0;
    while i < inputs.len()
        invariant
            i <= inputs.len(),
            moved@.len() == i,
            forall|j: int|
                0 <= j < i ==> (#[trigger] moved@[j])@ == (
                    inputs@[j].key@,
                    inputs@[j].val@,
                    joined(inputs@[j].ts, since@),
                    inputs@[j].diff,
                ),
        decreases inputs.len() - i,
    {
        let update = &inputs[i];
        moved.push(
            Update {
                key: update.key.clone(),
                val: update.val.clone(),
                ts: since.join_time(update.ts),
                diff: update.diff,
            },
        );
        i += 1;
    }
    proof {
        assert(updates_view(moved@) =~= moved_by(updates_view(inputs@), since@));
        lemma_moved_magnitude(updates_view(inputs@), since@);
    }
    consolidate_updates(moved)
}

} // verus!
