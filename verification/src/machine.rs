//! The single place through which a shard changes.
//!
//! A [`Machine`] holds the state of a shard as it was last fetched, and applies
//! one operation at a time to it. An operation that changes something makes the
//! next version of the state, which its caller then offers to the consensus
//! store by compare-and-swap; on a lost race the caller fetches the state again
//! and applies the operation anew. An operation that changes nothing makes no
//! new version.

use crate::error::{InvalidUsage, InvalidUsageView};
use crate::frontier::Frontier;
use crate::ids::{CriticalReaderId, LeasedReaderId, ShardId, WriterId};
use crate::invariants::lemma_no_change;
use crate::model::{downgraded, StateView, TransitionView, WriterState};
use crate::state::{
    append_refusal, lists_reader, lists_writer, Codecs, CompareAndAppendRes, CriticalReaderState,
    HollowBatch, LeasedReaderState, SinceDowngrade, State,
};
use vstd::prelude::*;

verus! {

/// After this many versions a full copy of the state is due.
pub const NEED_ROLLUP_THRESHOLD: u64 = 128;

/// Whether a full copy of the state is due at a version.
pub fn need_rollup(seqno: u64) -> (due: bool)
    ensures
        due == (seqno % 128 == 0),
{
    seqno % NEED_ROLLUP_THRESHOLD == 0
}

/// The state of one shard, and the operations on it.
#[derive(Debug)]
pub struct Machine {
    state: State,
}

impl View for Machine {
    type V = StateView;

    closed spec fn view(&self) -> StateView {
        self.state@
    }
}

/// The state from which a participant works: the one that was fetched, or that
/// of a new shard where nothing was there to fetch.
pub open spec fn starting_state(shard_id: Seq<u8>, codecs: Codecs, current: Option<State>) -> StateView {
    match current {
        Some(state) => state@,
        None => StateView::init(shard_id, codecs@),
    }
}

impl Machine {
    /// The state is one that the operations keep, and its version can still go up.
    pub closed spec fn wf(&self) -> bool {
        self.state.wf() && self.state@.seqno < u64::MAX
    }

    /// What holds of the state of every machine.
    pub proof fn lemma_wf(&self)
        requires
            self.wf(),
        ensures
            self@.wf(),
            self@.seqno < u64::MAX,
    {
    }

    /// A machine for a shard, from its state as it was fetched.
    ///
    /// Where nothing was fetched the shard is new, and starts with the codecs asked
    /// for. Where a state was fetched its codecs have to be the ones asked for.
    pub fn new(shard_id: ShardId, codecs: Codecs, current: Option<State>) -> (r: Result<
        Machine,
        InvalidUsage,
    >)
        requires
            current matches Some(state) ==> state.wf() && state@.seqno < u64::MAX,
        ensures
            match r {
                Ok(machine) => machine.wf() && machine@ == starting_state(
                    shard_id@,
                    codecs,
                    current,
                ) && machine@.codecs == codecs@,
                Err(e) => current is Some && current->Some_0@.codecs != codecs@ && e@ == (
                InvalidUsageView::CodecMismatch {
                    requested: codecs@,
                    actual: current->Some_0@.codecs,
                }),
            },
    {
        match current {
            Some(state) => {
                if codecs.same(state.codecs()) {
                    Ok(Machine { state })
                } else {
                    let actual = state.codecs().clone();
                    Err(InvalidUsage::CodecMismatch { requested: codecs, actual })
                }
            },
            None => Ok(Machine { state: State::new(shard_id, codecs) }),
        }
    }

    /// The state as the machine holds it.
    pub fn state(&self) -> (state: &State)
        ensures
            state@ == self@,
            self.wf() ==> state.wf(),
    {
        &self.state
    }

    /// Gives up the machine for its state.
    pub fn into_state(self) -> (state: State)
        ensures
            state@ == self@,
            self.wf() ==> state.wf(),
    {
        self.state
    }

    /// The version of the state.
    pub fn seqno(&self) -> (seqno: u64)
        ensures
            seqno == self@.seqno,
    {
        self.state.seqno()
    }

    /// Registers a writer, or refreshes its lease. Makes a new version.
    pub fn register_writer(&mut self, writer_id: &WriterId, lease_duration: u64, now: u64) -> (r: (
        Frontier,
        WriterState,
    ))
        requires
            old(self).wf(),
            old(self)@.seqno + 1 < u64::MAX,
        ensures
            final(self).wf(),
            final(self)@ == (TransitionView::RegisterWriter {
                writer_id: writer_id@,
                lease_duration,
                now,
            }).step(old(self)@),
            r.0@ == old(self)@.upper,
            r.1 == final(self)@.writers[writer_id@],
    {
        let r = self.state.register_writer(writer_id, lease_duration, now);
        self.state.next_version();
        r
    }

    /// Registers a leased reader, or refreshes its lease. Makes a new version.
    pub fn register_leased_reader(
        &mut self,
        reader_id: &LeasedReaderId,
        lease_duration: u64,
        now: u64,
    ) -> (r: (Frontier, LeasedReaderState))
        requires
            old(self).wf(),
            old(self)@.seqno + 1 < u64::MAX,
        ensures
            final(self).wf(),
            final(self)@ == (TransitionView::RegisterLeasedReader {
                reader_id: reader_id@,
                lease_duration,
                now,
            }).step(old(self)@),
            r.0@ == old(self)@.upper,
            r.1@ == final(self)@.leased_readers[reader_id@],
    {
        let r = self.state.register_leased_reader(reader_id, lease_duration, now);
        self.state.next_version();
        r
    }

    /// Registers a critical reader. Makes a new version unless it is registered.
    pub fn register_critical_reader(&mut self, reader_id: &CriticalReaderId) -> (r:
        CriticalReaderState)
        requires
            old(self).wf(),
            old(self)@.seqno + 1 < u64::MAX,
        ensures
            final(self).wf(),
            final(self)@ == (TransitionView::RegisterCriticalReader {
                reader_id: reader_id@,
            }).step(old(self)@),
            r@ == final(self)@.critical_readers[reader_id@],
    {
        let registered = self.state.critical_reader(reader_id).is_some();
        let r = self.state.register_critical_reader(reader_id);
        if !registered {
            self.state.next_version();
        }
        r
    }

    /// Appends a batch. Makes a new version if the append is applied.
    pub fn compare_and_append(
        &mut self,
        writer_id: &WriterId,
        batch: HollowBatch,
        expected_lower: &Frontier,
        new_upper: &Frontier,
        now: u64,
    ) -> (r: CompareAndAppendRes)
        requires
            old(self).wf(),
            old(self)@.seqno + 1 < u64::MAX,
        ensures
            final(self).wf(),
            final(self)@ == (TransitionView::CompareAndAppend {
                writer_id: writer_id@,
                batch: batch@,
                expected_lower: expected_lower@,
                new_upper: new_upper@,
                now,
            }).step(old(self)@),
            match r {
                CompareAndAppendRes::Applied => old(self)@.append_verdict(
                    batch@,
                    expected_lower@,
                    new_upper@,
                ) is Applied,
                CompareAndAppendRes::UpperMismatch(actual) => old(self)@.append_verdict(
                    batch@,
                    expected_lower@,
                    new_upper@,
                ) is UpperMismatch && actual@ == old(self)@.upper,
                CompareAndAppendRes::InvalidUsage(e) => Some(e@) == append_refusal(
                    old(self)@.append_verdict(batch@, expected_lower@, new_upper@),
                    batch@,
                    expected_lower@,
                    new_upper@,
                ),
            },
    {
        let r = self.state.compare_and_append(writer_id, batch, expected_lower, new_upper, now);
        match r {
            CompareAndAppendRes::Applied => {
                self.state.next_version();
            },
            _ => {},
        }
        r
    }

    /// Records a sign of life of a writer, and says whether it is registered.
    /// Makes a new version if it is.
    pub fn heartbeat_writer(&mut self, writer_id: &WriterId, now: u64) -> (registered: bool)
        requires
            old(self).wf(),
            old(self)@.seqno + 1 < u64::MAX,
        ensures
            final(self).wf(),
            final(self)@ == (TransitionView::HeartbeatWriter { writer_id: writer_id@, now }).step(
                old(self)@,
            ),
            registered == old(self)@.writers.contains_key(writer_id@),
    {
        let registered = self.state.heartbeat_writer(writer_id, now);
        if registered {
            self.state.next_version();
        }
        registered
    }

    /// Records a sign of life of a leased reader, and says whether it is
    /// registered. Makes a new version if it is.
    pub fn heartbeat_leased_reader(&mut self, reader_id: &LeasedReaderId, now: u64) -> (registered:
        bool)
        requires
            old(self).wf(),
            old(self)@.seqno + 1 < u64::MAX,
        ensures
            final(self).wf(),
            final(self)@ == (TransitionView::HeartbeatLeasedReader {
                reader_id: reader_id@,
                now,
            }).step(old(self)@),
            registered == old(self)@.leased_readers.contains_key(reader_id@),
    {
        let registered = self.state.heartbeat_leased_reader(reader_id, now);
        if registered {
            self.state.next_version();
        }
        registered
    }

    /// Moves the capability of a leased reader. Makes a new version if the
    /// capability moved.
    pub fn downgrade_since(&mut self, reader_id: &LeasedReaderId, new_since: &Frontier) -> (r:
        Option<Frontier>)
        requires
            old(self).wf(),
            old(self)@.seqno + 1 < u64::MAX,
        ensures
            final(self).wf(),
            final(self)@ == (TransitionView::DowngradeSince {
                reader_id: reader_id@,
                new_since: new_since@,
            }).step(old(self)@),
            match r {
                Some(since) => old(self)@.leased_readers.contains_key(reader_id@) && since@
                    == downgraded(old(self)@.leased_readers[reader_id@].since, new_since@),
                None => !old(self)@.leased_readers.contains_key(reader_id@),
            },
    {
        let before = match self.state.leased_reader(reader_id) {
            Some(reader) => Some(reader.since.clone()),
            None => None,
        };
        new_since.check_antichain();
        let r = self.state.downgrade_since(reader_id, new_since);
        let moved = match (&before, &r) {
            (Some(b), Some(a)) => !b.eq(a),
            _ => false,
        };
        if moved {
            self.state.next_version();
        } else {
            proof {
                lemma_no_change(
                    old(self)@,
                    TransitionView::DowngradeSince {
                        reader_id: reader_id@,
                        new_since: new_since@,
                    },
                );
            }
        }
        r
    }

    /// Swaps the token of a critical reader and moves its capability. Makes a new
    /// version if the reader holds the expected token.
    pub fn compare_and_downgrade_since(
        &mut self,
        reader_id: &CriticalReaderId,
        expected_opaque: &[u8; 8],
        new_opaque: &[u8; 8],
        new_since: &Frontier,
    ) -> (r: SinceDowngrade)
        requires
            old(self).wf(),
            old(self)@.seqno + 1 < u64::MAX,
        ensures
            final(self).wf(),
            final(self)@ == (TransitionView::CompareAndDowngradeSince {
                reader_id: reader_id@,
                expected_opaque: expected_opaque@,
                new_opaque: new_opaque@,
                new_since: new_since@,
            }).step(old(self)@),
            match r {
                SinceDowngrade::Downgraded(since) => old(self)@.holds_opaque(
                    reader_id@,
                    expected_opaque@,
                ) && since@ == downgraded(
                    old(self)@.critical_readers[reader_id@].since,
                    new_since@,
                ),
                SinceDowngrade::OpaqueMismatch(actual) => old(self)@.critical_readers.contains_key(
                    reader_id@,
                ) && actual@ == old(self)@.critical_readers[reader_id@].opaque && actual@
                    != expected_opaque@,
                SinceDowngrade::NotRegistered => !old(self)@.critical_readers.contains_key(
                    reader_id@,
                ),
            },
    {
        let r = self.state.compare_and_downgrade_since(
            reader_id,
            expected_opaque,
            new_opaque,
            new_since,
        );
        match r {
            SinceDowngrade::Downgraded(_) => {
                self.state.next_version();
            },
            _ => {},
        }
        r
    }

    /// Removes a writer, and says whether it was registered. Makes a new version
    /// if it was.
    pub fn expire_writer(&mut self, writer_id: &WriterId) -> (existed: bool)
        requires
            old(self).wf(),
            old(self)@.seqno + 1 < u64::MAX,
        ensures
            final(self).wf(),
            final(self)@ == (TransitionView::ExpireWriter { writer_id: writer_id@ }).step(
                old(self)@,
            ),
            existed == old(self)@.writers.contains_key(writer_id@),
    {
        let existed = self.state.expire_writer(writer_id);
        if existed {
            self.state.next_version();
        } else {
            proof {
                lemma_no_change(
                    old(self)@,
                    TransitionView::ExpireWriter { writer_id: writer_id@ },
                );
            }
        }
        existed
    }

    /// Removes a leased reader, and says whether it was registered. Makes a new
    /// version if it was.
    pub fn expire_leased_reader(&mut self, reader_id: &LeasedReaderId) -> (existed: bool)
        requires
            old(self).wf(),
            old(self)@.seqno + 1 < u64::MAX,
        ensures
            final(self).wf(),
            final(self)@ == (TransitionView::ExpireLeasedReader { reader_id: reader_id@ }).step(
                old(self)@,
            ),
            existed == old(self)@.leased_readers.contains_key(reader_id@),
    {
        let existed = self.state.expire_leased_reader(reader_id);
        if existed {
            self.state.next_version();
        } else {
            proof {
                lemma_no_change(
                    old(self)@,
                    TransitionView::ExpireLeasedReader { reader_id: reader_id@ },
                );
            }
        }
        existed
    }

    /// Removes a critical reader, and says whether it was registered. Makes a new
    /// version if it was.
    pub fn expire_critical_reader(&mut self, reader_id: &CriticalReaderId) -> (existed: bool)
        requires
            old(self).wf(),
            old(self)@.seqno + 1 < u64::MAX,
        ensures
            final(self).wf(),
            final(self)@ == (TransitionView::ExpireCriticalReader { reader_id: reader_id@ }).step(
                old(self)@,
            ),
            existed == old(self)@.critical_readers.contains_key(reader_id@),
    {
        let existed = self.state.expire_critical_reader(reader_id);
        if existed {
            self.state.next_version();
        } else {
            proof {
                lemma_no_change(
                    old(self)@,
                    TransitionView::ExpireCriticalReader { reader_id: reader_id@ },
                );
            }
        }
        existed
    }

    /// Puts the result of a compaction in the place of its inputs, and says
    /// whether it did. Makes a new version if it did.
    pub fn apply_merge_res(&mut self, inputs: &Vec<HollowBatch>, output: HollowBatch) -> (applied:
        bool)
        requires
            old(self).wf(),
            old(self)@.seqno + 1 < u64::MAX,
        ensures
            final(self).wf(),
            final(self)@ == (TransitionView::ApplyMergeRes {
                inputs: State::batches_view(inputs@),
                output: output@,
            }).step(old(self)@),
            applied == old(self)@.merge_applies(State::batches_view(inputs@), output@),
    {
        let applied = self.state.apply_merge_res(inputs, output);
        if applied {
            self.state.next_version();
        }
        applied
    }
}


/// The work that is due after an operation, for its caller to carry out in the
/// background. An operation never does this work itself.
#[derive(Debug, PartialEq, Eq)]
pub struct Maintenance {
    /// The writers whose lease has run out, to be removed.
    pub expired_writers: Vec<WriterId>,
    /// The leased readers whose lease has run out, to be removed.
    pub expired_leased_readers: Vec<LeasedReaderId>,
    /// The version of which a full copy is to be written, if one is due.
    pub write_rollup: Option<u64>,
}

impl Machine {
    /// The work that is due at `now`, as of the state that the machine holds.
    pub fn maintenance(&self, now: u64) -> (work: Maintenance)
        requires
            self.wf(),
        ensures
            forall|id: Seq<u8>|
                lists_writer(work.expired_writers@, id) <==> (
                #[trigger] self@.writers.contains_key(id) && self@.writers[id].lease_deadline
                    < now),
            forall|id: Seq<u8>|
                lists_reader(work.expired_leased_readers@, id) <==> (
                #[trigger] self@.leased_readers.contains_key(id)
                    && self@.leased_readers[id].lease_deadline < now),
            work.write_rollup == (if self@.seqno % 128 == 0 {
                Some(self@.seqno)
            } else {
                None
            }),
    {
        let seqno = self.state.seqno();
        Maintenance {
            expired_writers: self.state.expired_writers(now),
            expired_leased_readers: self.state.expired_leased_readers(now),
            write_rollup: if need_rollup(seqno) {
                Some(seqno)
            } else {
                None
            },
        }
    }
}

} // verus!
