//! The chain of versions of a state, as it is kept in durable storage.
//!
//! Every version but the first is recorded as what is different from the
//! version before it: the operation that made it. Now and then a full copy
//! of a version, a rollup, is written. The current state is materialized from
//! the latest rollup and the differences that follow it.

use crate::frontier::Frontier;
use crate::ids::{CriticalReaderId, LeasedReaderId, WriterId};
use crate::machine::Machine;
use crate::model::{StateView, TransitionView};
use crate::state::{HollowBatch, State};
use vstd::prelude::*;

verus! {

/// One operation on a shard, with its inputs.
#[derive(Debug, PartialEq, Eq)]
pub enum Transition {
    RegisterWriter { writer_id: WriterId, lease_duration: u64, now: u64 },
    RegisterLeasedReader { reader_id: LeasedReaderId, lease_duration: u64, now: u64 },
    RegisterCriticalReader { reader_id: CriticalReaderId },
    CompareAndAppend {
        writer_id: WriterId,
        batch: HollowBatch,
        expected_lower: Frontier,
        new_upper: Frontier,
        now: u64,
    },
    HeartbeatWriter { writer_id: WriterId, now: u64 },
    HeartbeatLeasedReader { reader_id: LeasedReaderId, now: u64 },
    DowngradeSince { reader_id: LeasedReaderId, new_since: Frontier },
    CompareAndDowngradeSince {
        reader_id: CriticalReaderId,
        expected_opaque: [u8; 8],
        new_opaque: [u8; 8],
        new_since: Frontier,
    },
    ExpireWriter { writer_id: WriterId },
    ExpireLeasedReader { reader_id: LeasedReaderId },
    ExpireCriticalReader { reader_id: CriticalReaderId },
    ApplyMergeRes { inputs: Vec<HollowBatch>, output: HollowBatch },
}

impl View for Transition {
    type V = TransitionView;

    open spec fn view(&self) -> TransitionView {
        match self {
            Transition::RegisterWriter {
                writer_id,
                lease_duration,
                now,
            } => TransitionView::RegisterWriter {
                writer_id: writer_id@,
                lease_duration: *lease_duration,
                now: *now,
            },
            Transition::RegisterLeasedReader {
                reader_id,
                lease_duration,
                now,
            } => TransitionView::RegisterLeasedReader {
                reader_id: reader_id@,
                lease_duration: *lease_duration,
                now: *now,
            },
            Transition::RegisterCriticalReader {
                reader_id,
            } => TransitionView::RegisterCriticalReader { reader_id: reader_id@ },
            Transition::CompareAndAppend {
                writer_id,
                batch,
                expected_lower,
                new_upper,
                now,
            } => TransitionView::CompareAndAppend {
                writer_id: writer_id@,
                batch: batch@,
                expected_lower: expected_lower@,
                new_upper: new_upper@,
                now: *now,
            },
            Transition::HeartbeatWriter { writer_id, now } => TransitionView::HeartbeatWriter {
                writer_id: writer_id@,
                now: *now,
            },
            Transition::HeartbeatLeasedReader {
                reader_id,
                now,
            } => TransitionView::HeartbeatLeasedReader { reader_id: reader_id@, now: *now },
            Transition::DowngradeSince { reader_id, new_since } => TransitionView::DowngradeSince {
                reader_id: reader_id@,
                new_since: new_since@,
            },
            Transition::CompareAndDowngradeSince {
                reader_id,
                expected_opaque,
                new_opaque,
                new_since,
            } => TransitionView::CompareAndDowngradeSince {
                reader_id: reader_id@,
                expected_opaque: expected_opaque@,
                new_opaque: new_opaque@,
                new_since: new_since@,
            },
            Transition::ExpireWriter { writer_id } => TransitionView::ExpireWriter {
                writer_id: writer_id@,
            },
            Transition::ExpireLeasedReader { reader_id } => TransitionView::ExpireLeasedReader {
                reader_id: reader_id@,
            },
            Transition::ExpireCriticalReader {
                reader_id,
            } => TransitionView::ExpireCriticalReader { reader_id: reader_id@ },
            Transition::ApplyMergeRes { inputs, output } => TransitionView::ApplyMergeRes {
                inputs: State::batches_view(inputs@),
                output: output@,
            },
        }
    }
}

/// What is different between two successive versions of a state: the operation
/// that made the later one of the earlier one.
#[derive(Debug, PartialEq, Eq)]
pub struct StateDiff {
    /// The version that the difference starts from.
    pub seqno_from: u64,
    /// The version that the difference leads to.
    pub seqno_to: u64,
    /// The operation that makes the later version.
    pub transition: Transition,
}

/// Why a chain of differences does not lead from a state to a later one.
#[derive(Debug, PartialEq, Eq, Clone, Copy)]
pub enum ReplayError {
    /// The difference at this index does not start from the version before it.
    Gap(usize),
    /// The difference at this index does not make the version that it names.
    Corrupt(usize),
}

/// Whether a difference leads from `s` to the next version: it starts from the
/// version of `s`, names the version after it, and its operation changes `s`.
pub open spec fn leads_on(s: StateView, diff: StateDiff) -> bool {
    diff.seqno_from == s.seqno && diff.seqno_to == s.seqno + 1 && diff.transition@.changes(s)
}

/// The state that a chain of differences makes of `s`, as far as each leads on
/// from what the ones before it made.
pub open spec fn replayed(s: StateView, diffs: Seq<StateDiff>) -> StateView
    decreases diffs.len(),
{
    if diffs.len() == 0 {
        s
    } else {
        diffs.last().transition@.step(replayed(s, diffs.drop_last()))
    }
}

/// Whether each difference of a chain leads on from what the ones before it
/// made of `s`.
pub open spec fn chain_leads_on(s: StateView, diffs: Seq<StateDiff>) -> bool
    decreases diffs.len(),
{
    diffs.len() == 0 || (chain_leads_on(s, diffs.drop_last()) && leads_on(
        replayed(s, diffs.drop_last()),
        diffs.last(),
    ))
}

impl Machine {
    /// Applies an operation, and says whether it made a new version.
    pub fn apply(&mut self, transition: &Transition) -> (changed: bool)
        requires
            old(self).wf(),
            old(self)@.seqno + 1 < u64::MAX,
        ensures
            final(self).wf(),
            final(self)@ == transition@.step(old(self)@),
            changed == transition@.changes(old(self)@),
    {
        let before = self.seqno();
        proof {
            self.lemma_wf();
        }
        match transition {
            Transition::RegisterWriter { writer_id, lease_duration, now } => {
                self.register_writer(writer_id, *lease_duration, *now);
            },
            Transition::RegisterLeasedReader { reader_id, lease_duration, now } => {
                self.register_leased_reader(reader_id, *lease_duration, *now);
            },
            Transition::RegisterCriticalReader { reader_id } => {
                self.register_critical_reader(reader_id);
            },
            Transition::CompareAndAppend { writer_id, batch, expected_lower, new_upper, now } => {
                self.compare_and_append(writer_id, batch.clone(), expected_lower, new_upper, *now);
            },
            Transition::HeartbeatWriter { writer_id, now } => {
                self.heartbeat_writer(writer_id, *now);
            },
            Transition::HeartbeatLeasedReader { reader_id, now } => {
                self.heartbeat_leased_reader(reader_id, *now);
            },
            Transition::DowngradeSince { reader_id, new_since } => {
                self.downgrade_since(reader_id, new_since);
            },
            Transition::CompareAndDowngradeSince {
                reader_id,
                expected_opaque,
                new_opaque,
                new_since,
            } => {
                self.compare_and_downgrade_since(
                    reader_id,
                    expected_opaque,
                    new_opaque,
                    new_since,
                );
            },
            Transition::ExpireWriter { writer_id } => {
                self.expire_writer(writer_id);
            },
            Transition::ExpireLeasedReader { reader_id } => {
                self.expire_leased_reader(reader_id);
            },
            Transition::ExpireCriticalReader { reader_id } => {
                self.expire_critical_reader(reader_id);
            },
            Transition::ApplyMergeRes { inputs, output } => {
                self.apply_merge_res(inputs, output.clone());
            },
        }
        self.seqno() != before
    }

    /// Applies a chain of differences to the state that the machine holds, which
    /// is a full copy of some version: this materializes the current state.
    ///
    /// Each difference has to start from the version that the one before it
    /// made, and has to make the version that it names. At the first one that
    /// does not, the machine stays at the version that was reached, and the
    /// index of the difference comes back.
    pub fn replay(&mut self, diffs: &Vec<StateDiff>) -> (r: Result<(), ReplayError>)
        requires
            old(self).wf(),
            old(self)@.seqno + diffs@.len() + 1 < u64::MAX,
        ensures
            final(self).wf(),
            match r {
                Ok(()) => chain_leads_on(old(self)@, diffs@) && final(self)@ == replayed(
                    old(self)@,
                    diffs@,
                ) && final(self)@.seqno == old(self)@.seqno + diffs@.len(),
                Err(ReplayError::Gap(at)) => at < diffs@.len() && chain_leads_on(
                    old(self)@,
                    diffs@.take(at as int),
                ) && final(self)@ == replayed(old(self)@, diffs@.take(at as int)) && !(
                diffs@[at as int].seqno_from == final(self)@.seqno && diffs@[at as int].seqno_to
                    == final(self)@.seqno + 1),
                Err(ReplayError::Corrupt(at)) => at < diffs@.len() && chain_leads_on(
                    old(self)@,
                    diffs@.take(at as int),
                ) && final(self)@ == replayed(old(self)@, diffs@.take(at as int))
                    && diffs@[at as int].seqno_from == final(self)@.seqno
                    && !diffs@[at as int].transition@.changes(final(self)@),
            },
    {
        let mut i: usize = 0;
        proof {
            assert(diffs@.take(0) =~= Seq::<StateDiff>::empty());
        }
        while i < diffs.len()
            invariant
                i <= diffs.len(),
                self.wf(),
                old(self)@.seqno + diffs@.len() + 1 < u64::MAX,
                self@.seqno == old(self)@.seqno + i,
                chain_leads_on(old(self)@, diffs@.take(i as int)),
                self@ == replayed(old(self)@, diffs@.take(i as int)),
            decreases diffs.len() - i,
        {
            let diff = &diffs[i];
            let seqno = self.seqno();
            if diff.seqno_from != seqno || diff.seqno_to != seqno + 1 {
                return Err(ReplayError::Gap(i));
            }
            let ghost before = self@;
            let changed = self.apply(&diff.transition);
            if !changed {
                return Err(ReplayError::Corrupt(i));
            }
            proof {
                assert(diffs@.take(i + 1).drop_last() =~= diffs@.take(i as int));
                assert(diffs@.take(i + 1).last() == diffs@[i as int]);
                assert(self@.seqno == before.seqno + 1);
            }
            i += 1;
        }
        proof {
            assert(diffs@.take(i as int) =~= diffs@);
        }
        Ok(())
    }
}


/// The version of the latest full copy at or before the head, among the
/// versions of which full copies are written: the one to materialize the
/// current state from.
pub fn latest_rollup(rollups: &Vec<u64>, head: u64) -> (latest: Option<u64>)
    ensures
        match latest {
            Some(seqno) => rollups@.contains(seqno) && seqno <= head && forall|i: int|
                0 <= i < rollups@.len() && rollups@[i] <= head ==> rollups@[i] <= seqno,
            None => forall|i: int| 0 <= i < rollups@.len() ==> rollups@[i] > head,
        },
{
    let mut latest: Option<u64> = None;
    let mut i: usize = 0;
    while i < rollups.len()
        invariant
            i <= rollups.len(),
            match latest {
                Some(seqno) => rollups@.contains(seqno) && seqno <= head && forall|j: int|
                    0 <= j < i && rollups@[j] <= head ==> rollups@[j] <= seqno,
                None => forall|j: int| 0 <= j < i ==> rollups@[j] > head,
            },
        decreases rollups.len() - i,
    {
        let seqno = rollups[i];
        if seqno <= head {
            let later = match latest {
                Some(best) => best < seqno,
                None => true,
            };
            if later {
                assert(rollups@[i as int] == seqno);
                latest = Some(seqno);
            }
        }
        i += 1;
    }
    latest
}

} // verus!
