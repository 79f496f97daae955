//! The handle through which a writer appends to a shard.

use crate::error::{InvalidUsage, InvalidUsageView};
use crate::frontier::{frontier_le, lemma_frontier_le_total, Frontier};
use crate::ids::{ShardId, WriterId};
use crate::invariants::lemma_no_change;
use crate::machine::Machine;
use crate::model::{AppendVerdict, BatchView, StateView, TransitionView};
use crate::state::{append_refusal, CompareAndAppendRes, HollowBatch};
use vstd::prelude::*;

verus! {

/// The upper of a shard, as the answer to an append against another upper.
#[derive(Debug, PartialEq, Eq)]
pub struct Upper(pub Frontier);

/// A batch that was built for a shard and is not yet in its trace.
#[derive(Debug, PartialEq, Eq)]
pub struct Batch {
    /// The shard that the batch was built for.
    pub shard_id: ShardId,
    /// What the batch covers and where its updates are.
    pub desc: HollowBatch,
}

/// What became of a handle's turn to give a sign of life.
#[derive(Debug, PartialEq, Eq, Clone, Copy)]
pub enum Heartbeat {
    /// Less than half of the lease has passed since the last sign of life.
    NotDue,
    /// The lease was extended.
    Extended,
    /// The shard does not know the participant any more: its lease ran out and
    /// a peer has removed it.
    Expired,
}

/// Whether a sign of life is due at `now`: at least half of the lease has passed
/// since the last one.
pub open spec fn heartbeat_due(last_heartbeat: u64, lease_duration: u64, now: u64) -> bool {
    now >= last_heartbeat && now - last_heartbeat >= lease_duration / 2
}

/// Decides whether a sign of life is due at `now`.
pub fn is_heartbeat_due(last_heartbeat: u64, lease_duration: u64, now: u64) -> (due: bool)
    ensures
        due == heartbeat_due(last_heartbeat, lease_duration, now),
{
    now >= last_heartbeat && now - last_heartbeat >= lease_duration / 2
}

/// How a best-effort append of a batch that covers `[lower, upper)` fares.
pub enum AppendPlan {
    /// The append is a misuse.
    Refused,
    /// The shard has not reached `lower` yet: the append would leave a gap.
    Mismatch,
    /// The shard is at or beyond `upper` already: nothing is left to append.
    Covered,
    /// The part of the batch from the upper of the shard on goes into the trace.
    Extend,
}

/// Decides how a best-effort append fares against a state.
pub open spec fn append_plan(s: StateView, batch: BatchView, lower: Seq<u64>, upper: Seq<u64>) -> AppendPlan {
    match s.append_verdict(batch, lower, upper) {
        AppendVerdict::Applied => AppendPlan::Extend,
        AppendVerdict::UpperMismatch => if !frontier_le(lower, s.upper) {
            AppendPlan::Mismatch
        } else if frontier_le(upper, s.upper) {
            AppendPlan::Covered
        } else {
            AppendPlan::Extend
        },
        _ => AppendPlan::Refused,
    }
}

/// The operation by which a best-effort append extends the trace: the batch,
/// from the upper of the shard on, is appended against that upper.
pub open spec fn extension(
    s: StateView,
    writer_id: Seq<u8>,
    batch: BatchView,
    upper: Seq<u64>,
    now: u64,
) -> TransitionView {
    TransitionView::CompareAndAppend {
        writer_id,
        batch: BatchView { lower: s.upper, ..batch },
        expected_lower: s.upper,
        new_upper: upper,
        now,
    }
}

/// A handle for writing to one shard. It caches the upper of the shard as it
/// last saw it, and the time of its last sign of life.
#[derive(Debug, PartialEq, Eq)]
pub struct WriteHandle {
    /// The shard that the handle writes to.
    pub shard_id: ShardId,
    /// The writer as the shard knows it.
    pub writer_id: WriterId,
    /// The upper of the shard as the handle last saw it.
    pub upper: Frontier,
    /// The time of the last sign of life, in milliseconds.
    pub last_heartbeat: u64,
    /// The length of the lease, in milliseconds.
    pub lease_duration: u64,
}

impl WriteHandle {
    /// A handle for a writer that was registered at `now`.
    pub fn new(
        shard_id: ShardId,
        writer_id: WriterId,
        upper: Frontier,
        lease_duration: u64,
        now: u64,
    ) -> (handle: WriteHandle)
        ensures
            handle.shard_id == shard_id,
            handle.writer_id == writer_id,
            handle.upper@ == upper@,
            handle.last_heartbeat == now,
            handle.lease_duration == lease_duration,
    {
        WriteHandle { shard_id, writer_id, upper, last_heartbeat: now, lease_duration }
    }

    /// The upper of the shard as the handle last saw it. The upper of the shard
    /// itself may be beyond it.
    pub fn upper(&self) -> (upper: &Frontier)
        ensures
            upper@ == self.upper@,
    {
        &self.upper
    }

    /// Looks at the state of the shard and takes its upper into the cache.
    pub fn fetch_recent_upper(&mut self, machine: &Machine) -> (upper: &Frontier)
        ensures
            final(self).upper@ == machine@.upper,
            upper@ == machine@.upper,
            final(self).shard_id == old(self).shard_id,
            final(self).writer_id == old(self).writer_id,
            final(self).last_heartbeat == old(self).last_heartbeat,
            final(self).lease_duration == old(self).lease_duration,
    {
        self.upper = machine.state().upper().clone();
        &self.upper
    }

    /// Gives a sign of life if one is due: if at least half of the lease has
    /// passed since the last one. A handle whose writer the shard has removed
    /// learns so, and the shard stays as it is.
    pub fn maybe_heartbeat_writer(&mut self, machine: &mut Machine, now: u64) -> (r: Heartbeat)
        requires
            old(machine).wf(),
            old(machine)@.seqno + 1 < u64::MAX,
        ensures
            final(machine).wf(),
            final(self).shard_id == old(self).shard_id,
            final(self).writer_id == old(self).writer_id,
            final(self).upper == old(self).upper,
            final(self).lease_duration == old(self).lease_duration,
            final(machine)@ == (if heartbeat_due(
                old(self).last_heartbeat,
                old(self).lease_duration,
                now,
            ) {
                (TransitionView::HeartbeatWriter { writer_id: old(self).writer_id@, now }).step(
                    old(machine)@,
                )
            } else {
                old(machine)@
            }),
            r == (if !heartbeat_due(old(self).last_heartbeat, old(self).lease_duration, now) {
                Heartbeat::NotDue
            } else if old(machine)@.writers.contains_key(old(self).writer_id@) {
                Heartbeat::Extended
            } else {
                Heartbeat::Expired
            }),
            final(self).last_heartbeat == (if r == Heartbeat::Extended {
                now
            } else {
                old(self).last_heartbeat
            }),
    {
        if !is_heartbeat_due(self.last_heartbeat, self.lease_duration, now) {
            return Heartbeat::NotDue;
        }
        if machine.heartbeat_writer(&self.writer_id, now) {
            self.last_heartbeat = now;
            Heartbeat::Extended
        } else {
            Heartbeat::Expired
        }
    }

    /// Gives a sign of life after a batch was built, if building it took the
    /// writing of at least one part: a batch that needed none took no time.
    pub fn heartbeat_after_batch(&mut self, machine: &mut Machine, spilled: usize, now: u64) -> (r:
        Heartbeat)
        requires
            old(machine).wf(),
            old(machine)@.seqno + 1 < u64::MAX,
        ensures
            final(machine).wf(),
            final(self).shard_id == old(self).shard_id,
            final(self).writer_id == old(self).writer_id,
            final(self).upper == old(self).upper,
            final(self).lease_duration == old(self).lease_duration,
            final(machine)@ == (if spilled > 0 {
                (TransitionView::HeartbeatWriter { writer_id: old(self).writer_id@, now }).step(
                    old(machine)@,
                )
            } else {
                old(machine)@
            }),
            r == (if spilled == 0 {
                Heartbeat::NotDue
            } else if old(machine)@.writers.contains_key(old(self).writer_id@) {
                Heartbeat::Extended
            } else {
                Heartbeat::Expired
            }),
            final(self).last_heartbeat == (if r == Heartbeat::Extended {
                now
            } else {
                old(self).last_heartbeat
            }),
    {
        if spilled == 0 {
            return Heartbeat::NotDue;
        }
        if machine.heartbeat_writer(&self.writer_id, now) {
            self.last_heartbeat = now;
            Heartbeat::Extended
        } else {
            Heartbeat::Expired
        }
    }

    /// Appends a batch as `[expected_upper, new_upper)` if the upper of the shard
    /// is `expected_upper`.
    ///
    /// A batch of another shard is refused, and so is an append that the shard
    /// refuses as misuse; neither changes anything. An append against another
    /// upper than the shard's brings back the upper of the shard, which the
    /// handle takes into its cache; the handle gives a sign of life then, so that
    /// a writer that keeps losing is not expired. An append that is applied
    /// moves the cached upper to `new_upper`.
    pub fn compare_and_append_batch(
        &mut self,
        machine: &mut Machine,
        batch: Batch,
        expected_upper: &Frontier,
        new_upper: &Frontier,
        now: u64,
    ) -> (r: Result<Result<(), Upper>, InvalidUsage>)
        requires
            old(machine).wf(),
            old(machine)@.seqno + 1 < u64::MAX,
        ensures
            final(machine).wf(),
            final(self).shard_id == old(self).shard_id,
            final(self).writer_id == old(self).writer_id,
            final(self).lease_duration == old(self).lease_duration,
            batch.shard_id@ != old(self).shard_id@ ==> final(machine)@ == old(machine)@ && *final(self) == *old(self) && r is Err && r->Err_0@ == (InvalidUsageView::BatchNotFromThisShard {
                batch_shard: batch.shard_id@,
                handle_shard: old(self).shard_id@,
            }),
            batch.shard_id@ == old(self).shard_id@ ==> match old(machine)@.append_verdict(
                batch.desc@,
                expected_upper@,
                new_upper@,
            ) {
                AppendVerdict::Applied => r == Ok::<Result<(), Upper>, InvalidUsage>(Ok(()))
                    && final(machine)@ == (TransitionView::CompareAndAppend {
                    writer_id: old(self).writer_id@,
                    batch: batch.desc@,
                    expected_lower: expected_upper@,
                    new_upper: new_upper@,
                    now,
                }).step(old(machine)@) && final(self).upper@ == new_upper@ && final(self).last_heartbeat == now,
                AppendVerdict::UpperMismatch => r matches Ok(Err(actual)) && actual.0@ == old(machine)@.upper && final(machine)@ == (TransitionView::HeartbeatWriter {
                    writer_id: old(self).writer_id@,
                    now,
                }).step(old(machine)@) && final(self).upper@ == old(machine)@.upper && final(self).last_heartbeat == (if old(machine)@.writers.contains_key(old(self).writer_id@) {
                    now
                } else {
                    old(self).last_heartbeat
                }),
                verdict => final(machine)@ == old(machine)@ && *final(self) == *old(self) && r is Err
                    && Some(r->Err_0@) == append_refusal(
                    verdict,
                    batch.desc@,
                    expected_upper@,
                    new_upper@,
                ),
            },
    {
        if !batch.shard_id.same(&self.shard_id) {
            return Err(
                InvalidUsage::BatchNotFromThisShard {
                    batch_shard: batch.shard_id,
                    handle_shard: self.shard_id,
                },
            );
        }
        proof {
            machine.lemma_wf();
            let t = TransitionView::CompareAndAppend {
                writer_id: self.writer_id@,
                batch: batch.desc@,
                expected_lower: expected_upper@,
                new_upper: new_upper@,
                now,
            };
            if !t.changes(machine@) {
                lemma_no_change(machine@, t);
            }
        }
        match machine.compare_and_append(&self.writer_id, batch.desc, expected_upper, new_upper, now) {
            CompareAndAppendRes::Applied => {
                self.upper = new_upper.clone();
                self.last_heartbeat = now;
                Ok(Ok(()))
            },
            CompareAndAppendRes::UpperMismatch(actual) => {
                self.upper = actual.clone();
                if machine.heartbeat_writer(&self.writer_id, now) {
                    self.last_heartbeat = now;
                }
                Ok(Err(Upper(actual)))
            },
            CompareAndAppendRes::InvalidUsage(e) => Err(e),
        }
    }

    /// Appends what is left to append of a batch that covers `[lower, upper)`.
    ///
    /// A batch of another shard is refused, and so is an append that the shard
    /// would refuse as misuse. Where the shard has not reached `lower`, its upper
    /// comes back, as for a strict append. Where the shard is at or beyond
    /// `upper` already, nothing is left to do. Else the batch goes into the
    /// trace from the upper of the shard on, and the upper of the shard moves to
    /// `upper`. In each case but the refusals the handle takes the upper of the
    /// shard into its cache.
    pub fn append_batch(
        &mut self,
        machine: &mut Machine,
        batch: Batch,
        lower: &Frontier,
        upper: &Frontier,
        now: u64,
    ) -> (r: Result<Result<(), Upper>, InvalidUsage>)
        requires
            old(machine).wf(),
            old(machine)@.seqno + 1 < u64::MAX,
        ensures
            final(machine).wf(),
            final(self).shard_id == old(self).shard_id,
            final(self).writer_id == old(self).writer_id,
            final(self).lease_duration == old(self).lease_duration,
            batch.shard_id@ != old(self).shard_id@ ==> final(machine)@ == old(machine)@ && *final(self) == *old(self) && r is Err && r->Err_0@ == (InvalidUsageView::BatchNotFromThisShard {
                batch_shard: batch.shard_id@,
                handle_shard: old(self).shard_id@,
            }),
            batch.shard_id@ == old(self).shard_id@ ==> match append_plan(
                old(machine)@,
                batch.desc@,
                lower@,
                upper@,
            ) {
                AppendPlan::Extend => r == Ok::<Result<(), Upper>, InvalidUsage>(Ok(()))
                    && final(machine)@ == extension(
                    old(machine)@,
                    old(self).writer_id@,
                    batch.desc@,
                    upper@,
                    now,
                ).step(old(machine)@) && final(machine)@.upper == upper@ && final(self).upper@
                    == upper@ && final(self).last_heartbeat == now,
                AppendPlan::Covered => r == Ok::<Result<(), Upper>, InvalidUsage>(Ok(()))
                    && final(machine)@ == old(machine)@ && final(self).upper@ == old(machine)@.upper && final(self).last_heartbeat == old(self).last_heartbeat,
                AppendPlan::Mismatch => r matches Ok(Err(actual)) && actual.0@ == old(machine)@.upper && final(machine)@ == (TransitionView::HeartbeatWriter {
                    writer_id: old(self).writer_id@,
                    now,
                }).step(old(machine)@) && final(self).upper@ == old(machine)@.upper && final(self).last_heartbeat == (if old(machine)@.writers.contains_key(old(self).writer_id@) {
                    now
                } else {
                    old(self).last_heartbeat
                }),
                AppendPlan::Refused => final(machine)@ == old(machine)@ && *final(self) == *old(self)
                    && r is Err && Some(r->Err_0@) == append_refusal(
                    old(machine)@.append_verdict(batch.desc@, lower@, upper@),
                    batch.desc@,
                    lower@,
                    upper@,
                ),
            },
    {
        if !batch.shard_id.same(&self.shard_id) {
            return Err(
                InvalidUsage::BatchNotFromThisShard {
                    batch_shard: batch.shard_id,
                    handle_shard: self.shard_id,
                },
            );
        }
        lower.check_antichain();
        upper.check_antichain();
        proof {
            machine.lemma_wf();
        }
        // Where the shard stands: at `lower`, before it, or beyond it.
        let shard_upper = machine.state().upper().clone();
        shard_upper.check_antichain();
        if upper.less_than(lower) {
            return Err(InvalidUsage::InvalidBounds { lower: lower.clone(), upper: upper.clone() });
        }
        if lower.eq(upper) && batch.desc.len > 0 {
            return Err(
                InvalidUsage::InvalidEmptyTimeInterval {
                    lower: lower.clone(),
                    upper: upper.clone(),
                    keys: batch.desc.parts,
                },
            );
        }
        if !batch.desc.lower.eq(lower) || !batch.desc.upper.eq(upper) {
            return Err(
                InvalidUsage::InvalidBatchBounds {
                    batch_lower: batch.desc.lower,
                    batch_upper: batch.desc.upper,
                    append_lower: lower.clone(),
                    append_upper: upper.clone(),
                },
            );
        }
        if !lower.less_equal(&shard_upper) {
            self.upper = shard_upper.clone();
            if machine.heartbeat_writer(&self.writer_id, now) {
                self.last_heartbeat = now;
            }
            return Ok(Err(Upper(shard_upper)));
        }
        if !shard_upper.eq(lower) && upper.less_equal(&shard_upper) {
            self.upper = shard_upper;
            return Ok(Ok(()));
        }
        let rest = HollowBatch {
            lower: shard_upper.clone(),
            upper: batch.desc.upper,
            since: batch.desc.since,
            parts: batch.desc.parts,
            len: batch.desc.len,
        };
        proof {
            lemma_frontier_le_total(upper@, shard_upper@);
            assert(rest@ == (BatchView { lower: machine@.upper, ..batch.desc@ }));
            assert(machine@.append_verdict(rest@, shard_upper@, upper@) is Applied);
        }
        let applied = machine.compare_and_append(&self.writer_id, rest, &shard_upper, upper, now);
        self.upper = upper.clone();
        self.last_heartbeat = now;
        Ok(Ok(()))
    }
}

} // verus!
