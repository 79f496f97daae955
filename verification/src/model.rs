//! The mathematical value of the state of a shard, and what each transition
//! makes of it.
//!
//! Everything here is mathematics: the executable state is proved to follow it.

use crate::frontier::{frontier_le, is_antichain};
use vstd::prelude::*;

verus! {

/// The mathematical value of [`Codecs`].
pub struct CodecsView {
    pub key: Seq<char>,
    pub val: Seq<char>,
    pub ts: Seq<char>,
    pub diff: Seq<char>,
}

/// The mathematical value of a [`HollowBatch`].
pub struct BatchView {
    pub lower: Seq<u64>,
    pub upper: Seq<u64>,
    pub since: Seq<u64>,
    pub parts: Seq<Seq<char>>,
    pub len: nat,
}

/// The mathematical value of a [`LeasedReaderState`].
pub struct LeasedReaderView {
    pub since: Seq<u64>,
    pub lease_deadline: u64,
    pub last_heartbeat: u64,
}

/// The mathematical value of a [`CriticalReaderState`].
pub struct CriticalReaderView {
    pub since: Seq<u64>,
    pub opaque: Seq<u8>,
}

/// What the shard records of a writer.
#[derive(Clone, Copy, Debug, PartialEq, Eq)]
pub struct WriterState {
    /// The time, in milliseconds, after which peers may expire the writer.
    pub lease_deadline: u64,
    /// The time, in milliseconds, at which the writer last gave a sign of life.
    pub last_heartbeat: u64,
}

/// The end of a lease taken at `now` for `lease_duration` milliseconds. A lease
/// that would end beyond the last representable time ends there.
pub open spec fn lease_end(now: u64, lease_duration: u64) -> u64 {
    if now + lease_duration > u64::MAX {
        u64::MAX
    } else {
        (now + lease_duration) as u64
    }
}

/// The later of two times.
pub open spec fn later(a: u64, b: u64) -> u64 {
    if a <= b {
        b
    } else {
        a
    }
}

/// `f` is at or before every frontier of the set.
pub open spec fn lower_bound(f: Seq<u64>, caps: Set<Seq<u64>>) -> bool {
    forall|c: Seq<u64>| caps.contains(c) ==> frontier_le(f, c)
}

/// `f` is the meet of the set: at or before each of its frontiers, and at or
/// beyond every frontier that is so too.
pub open spec fn is_meet_of(f: Seq<u64>, caps: Set<Seq<u64>>) -> bool {
    &&& lower_bound(f, caps)
    &&& forall|g: Seq<u64>| lower_bound(g, caps) ==> frontier_le(g, f)
}

/// The since of a shard whose readers hold the capabilities `caps`: their meet.
/// Where nobody holds a capability, the since stays where it was.
pub open spec fn held_since(caps: Set<Seq<u64>>, unheld: Seq<u64>) -> Seq<u64> {
    if forall|c: Seq<u64>| !caps.contains(c) {
        unheld
    } else {
        choose|f: Seq<u64>| is_antichain(f) && is_meet_of(f, caps)
    }
}

/// The batches cover `[minimum, upper)` in order: the first starts at the least
/// time, each starts where the one before it ends, the last ends at `upper`, and
/// every batch covers a proper interval.
pub open spec fn tiles(trace: Seq<BatchView>, upper: Seq<u64>) -> bool {
    &&& trace.len() == 0 ==> upper == seq![0u64]
    &&& trace.len() > 0 ==> trace[0].lower == seq![0u64] && trace.last().upper == upper
    &&& forall|i: int| 0 <= i < trace.len() - 1 ==> (#[trigger] trace[i]).upper == trace[i + 1].lower
    &&& forall|i: int|
        0 <= i < trace.len() ==> is_antichain((#[trigger] trace[i]).lower) && is_antichain(
            trace[i].upper,
        ) && frontier_le(trace[i].lower, trace[i].upper) && trace[i].lower != trace[i].upper
}

/// The mathematical value of a [`State`].
pub struct StateView {
    pub shard_id: Seq<u8>,
    pub seqno: u64,
    pub codecs: CodecsView,
    pub since: Seq<u64>,
    pub upper: Seq<u64>,
    pub trace: Seq<BatchView>,
    pub leased_readers: Map<Seq<u8>, LeasedReaderView>,
    pub critical_readers: Map<Seq<u8>, CriticalReaderView>,
    pub writers: Map<Seq<u8>, WriterState>,
}

impl StateView {
    /// The since capabilities that readers hold, leased and critical ones alike.
    pub open spec fn capabilities(self) -> Set<Seq<u64>> {
        Set::new(
            |f: Seq<u64>|
                (exists|k: Seq<u8>| #[trigger]
                    self.leased_readers.contains_key(k) && self.leased_readers[k].since == f) || (
                exists|k: Seq<u8>| #[trigger]
                    self.critical_readers.contains_key(k) && self.critical_readers[k].since == f),
        )
    }

    /// What holds of every state of a shard, whatever was done to it: frontiers
    /// are antichains, the trace tiles the times before `upper`, and the since is
    /// the meet of the capabilities that readers hold and of itself.
    pub open spec fn wf(self) -> bool {
        &&& is_antichain(self.since)
        &&& is_antichain(self.upper)
        &&& tiles(self.trace, self.upper)
        &&& forall|c: Seq<u64>| #[trigger] self.capabilities().contains(c) ==> is_antichain(c)
        &&& self.since_is_held()
    }

    /// The since is the meet of the capabilities that readers hold and of itself;
    /// where a reader holds a capability, it is the meet of the capabilities.
    pub open spec fn since_is_held(self) -> bool {
        &&& is_meet_of(self.since, self.capabilities().insert(self.since))
        &&& (exists|c: Seq<u64>| self.capabilities().contains(c)) ==> is_meet_of(
            self.since,
            self.capabilities(),
        )
    }

    /// The since and every capability are at or before the upper.
    pub open spec fn since_within_upper(self) -> bool {
        &&& frontier_le(self.since, self.upper)
        &&& forall|c: Seq<u64>| #[trigger] self.capabilities().contains(c) ==> frontier_le(c, self.upper)
    }

    /// The state of a shard that was just created.
    pub open spec fn init(shard_id: Seq<u8>, codecs: CodecsView) -> StateView {
        StateView {
            shard_id,
            seqno: 0,
            codecs,
            since: seq![0u64],
            upper: seq![0u64],
            trace: Seq::empty(),
            leased_readers: Map::empty(),
            critical_readers: Map::empty(),
            writers: Map::empty(),
        }
    }

    /// The state with the since that its capabilities give.
    pub open spec fn with_held_since(self) -> StateView {
        StateView { since: held_since(self.capabilities(), self.since), ..self }
    }

    /// The state after a writer registered, or registered again, at `now`.
    pub open spec fn register_writer(self, writer_id: Seq<u8>, lease_duration: u64, now: u64) -> StateView {
        StateView {
            writers: self.writers.insert(
                writer_id,
                WriterState { lease_deadline: lease_end(now, lease_duration), last_heartbeat: now },
            ),
            ..self
        }
    }

    /// The capability of a leased reader after it registered at `now`: the shard's
    /// since for a new reader, its own since for one that is registered already.
    pub open spec fn leased_capability(self, reader_id: Seq<u8>) -> Seq<u64> {
        if self.leased_readers.contains_key(reader_id) {
            self.leased_readers[reader_id].since
        } else {
            self.since
        }
    }

    /// The state after a leased reader registered, or registered again, at `now`.
    pub open spec fn register_leased_reader(self, reader_id: Seq<u8>, lease_duration: u64, now: u64) -> StateView {
        StateView {
            leased_readers: self.leased_readers.insert(
                reader_id,
                LeasedReaderView {
                    since: self.leased_capability(reader_id),
                    lease_deadline: lease_end(now, lease_duration),
                    last_heartbeat: now,
                },
            ),
            ..self
        }
    }

    /// The state after a critical reader registered. Registering again changes nothing.
    pub open spec fn register_critical_reader(self, reader_id: Seq<u8>) -> StateView {
        if self.critical_readers.contains_key(reader_id) {
            self
        } else {
            StateView {
                critical_readers: self.critical_readers.insert(
                    reader_id,
                    CriticalReaderView { since: self.since, opaque: seq![0u8, 0u8, 0u8, 0u8, 0u8, 0u8, 0u8, 0u8] },
                ),
                ..self
            }
        }
    }
}

/// How an append fares against a state.
pub enum AppendVerdict {
    /// The batch goes into the trace.
    Applied,
    /// The shard's upper is not the lower that the writer expected.
    UpperMismatch,
    /// The upper of the append is before its lower.
    InvalidBounds,
    /// The append covers no time, yet brings updates.
    InvalidEmptyTimeInterval,
    /// The batch does not cover the interval of the append.
    InvalidBatchBounds,
}

/// The registration of a participant after a sign of life at `now`: the lease runs
/// as long again from `now`. A sign of life from the past changes nothing.
pub open spec fn heartbeat(w: WriterState, now: u64) -> WriterState {
    if now <= w.last_heartbeat {
        w
    } else {
        WriterState {
            lease_deadline: later(
                w.lease_deadline,
                lease_end(
                    now,
                    if w.lease_deadline >= w.last_heartbeat {
                        (w.lease_deadline - w.last_heartbeat) as u64
                    } else {
                        0
                    },
                ),
            ),
            last_heartbeat: now,
        }
    }
}

/// A capability after its holder asked to move it to `new_since`: it moves there if
/// that is at or beyond where it is, and stays otherwise.
pub open spec fn downgraded(since: Seq<u64>, new_since: Seq<u64>) -> Seq<u64> {
    if frontier_le(since, new_since) {
        new_since
    } else {
        since
    }
}

/// The index at which the batches `inputs` stand in the trace, one after the
/// other, if they do.
pub open spec fn run_at(trace: Seq<BatchView>, inputs: Seq<BatchView>, at: int) -> bool {
    &&& 0 <= at
    &&& at + inputs.len() <= trace.len()
    &&& trace.subrange(at, at + inputs.len()) == inputs
}

impl StateView {
    /// How an append of `batch` as `[expected_lower, new_upper)` fares.
    pub open spec fn append_verdict(self, batch: BatchView, expected_lower: Seq<u64>, new_upper: Seq<u64>) -> AppendVerdict {
        if frontier_le(new_upper, expected_lower) && new_upper != expected_lower {
            AppendVerdict::InvalidBounds
        } else if expected_lower == new_upper && batch.len > 0 {
            AppendVerdict::InvalidEmptyTimeInterval
        } else if batch.lower != expected_lower || batch.upper != new_upper {
            AppendVerdict::InvalidBatchBounds
        } else if self.upper != expected_lower {
            AppendVerdict::UpperMismatch
        } else {
            AppendVerdict::Applied
        }
    }

    /// The writers after one of them gave a sign of life.
    pub open spec fn writers_after_heartbeat(self, writer_id: Seq<u8>, now: u64) -> Map<Seq<u8>, WriterState> {
        if self.writers.contains_key(writer_id) {
            self.writers.insert(writer_id, heartbeat(self.writers[writer_id], now))
        } else {
            self.writers
        }
    }

    /// The state after an append. Only an applied append changes it: the batch goes
    /// to the end of the trace, unless it covers no time, the upper moves to
    /// `new_upper`, and the writer has given a sign of life.
    pub open spec fn compare_and_append(
        self,
        writer_id: Seq<u8>,
        batch: BatchView,
        expected_lower: Seq<u64>,
        new_upper: Seq<u64>,
        now: u64,
    ) -> StateView {
        if self.append_verdict(batch, expected_lower, new_upper) is Applied {
            StateView {
                upper: new_upper,
                trace: if expected_lower == new_upper {
                    self.trace
                } else {
                    self.trace.push(batch)
                },
                writers: self.writers_after_heartbeat(writer_id, now),
                ..self
            }
        } else {
            self
        }
    }

    /// The state after a writer gave a sign of life.
    pub open spec fn heartbeat_writer(self, writer_id: Seq<u8>, now: u64) -> StateView {
        StateView { writers: self.writers_after_heartbeat(writer_id, now), ..self }
    }

    /// The state after a leased reader gave a sign of life.
    pub open spec fn heartbeat_leased_reader(self, reader_id: Seq<u8>, now: u64) -> StateView {
        if self.leased_readers.contains_key(reader_id) {
            let r = self.leased_readers[reader_id];
            let w = heartbeat(
                WriterState { lease_deadline: r.lease_deadline, last_heartbeat: r.last_heartbeat },
                now,
            );
            StateView {
                leased_readers: self.leased_readers.insert(
                    reader_id,
                    LeasedReaderView {
                        since: r.since,
                        lease_deadline: w.lease_deadline,
                        last_heartbeat: w.last_heartbeat,
                    },
                ),
                ..self
            }
        } else {
            self
        }
    }

    /// The state after a leased reader asked to move its capability to `new_since`.
    pub open spec fn downgrade_since(self, reader_id: Seq<u8>, new_since: Seq<u64>) -> StateView {
        if self.leased_readers.contains_key(reader_id) {
            let r = self.leased_readers[reader_id];
            StateView {
                leased_readers: self.leased_readers.insert(
                    reader_id,
                    LeasedReaderView { since: downgraded(r.since, new_since), ..r },
                ),
                ..self
            }.with_held_since()
        } else {
            self
        }
    }

    /// Whether a critical reader is registered with the token `expected_opaque`.
    pub open spec fn holds_opaque(self, reader_id: Seq<u8>, expected_opaque: Seq<u8>) -> bool {
        self.critical_readers.contains_key(reader_id) && self.critical_readers[reader_id].opaque
            == expected_opaque
    }

    /// The state after a critical reader asked to swap its token and to move its
    /// capability. Nothing changes unless it holds the expected token.
    pub open spec fn compare_and_downgrade_since(
        self,
        reader_id: Seq<u8>,
        expected_opaque: Seq<u8>,
        new_opaque: Seq<u8>,
        new_since: Seq<u64>,
    ) -> StateView {
        if self.holds_opaque(reader_id, expected_opaque) {
            let r = self.critical_readers[reader_id];
            StateView {
                critical_readers: self.critical_readers.insert(
                    reader_id,
                    CriticalReaderView { since: downgraded(r.since, new_since), opaque: new_opaque },
                ),
                ..self
            }.with_held_since()
        } else {
            self
        }
    }

    /// The state without a writer.
    pub open spec fn expire_writer(self, writer_id: Seq<u8>) -> StateView {
        StateView { writers: self.writers.remove(writer_id), ..self }
    }

    /// The state without a leased reader, and so without its capability.
    pub open spec fn expire_leased_reader(self, reader_id: Seq<u8>) -> StateView {
        StateView {
            leased_readers: self.leased_readers.remove(reader_id),
            ..self
        }.with_held_since()
    }

    /// The state without a critical reader, and so without its capability.
    pub open spec fn expire_critical_reader(self, reader_id: Seq<u8>) -> StateView {
        StateView {
            critical_readers: self.critical_readers.remove(reader_id),
            ..self
        }.with_held_since()
    }

    /// Whether the result of a compaction can take the place of its inputs: the
    /// inputs stand in the trace one after the other, from index `at` on, and the
    /// output covers what they cover together.
    pub open spec fn merge_applies_at(self, inputs: Seq<BatchView>, output: BatchView, at: int) -> bool {
        &&& inputs.len() > 0
        &&& run_at(self.trace, inputs, at)
        &&& output.lower == inputs[0].lower
        &&& output.upper == inputs.last().upper
    }

    /// Whether the result of a compaction can take the place of its inputs.
    pub open spec fn merge_applies(self, inputs: Seq<BatchView>, output: BatchView) -> bool {
        exists|at: int| self.merge_applies_at(inputs, output, at)
    }

    /// The index at which the result of a compaction takes the place of its inputs.
    pub open spec fn merge_position(self, inputs: Seq<BatchView>, output: BatchView) -> int {
        choose|at: int| self.merge_applies_at(inputs, output, at)
    }

    /// The state after the batches from index `at` on gave way to `output`.
    pub open spec fn apply_merge_res(self, inputs: Seq<BatchView>, output: BatchView, at: int) -> StateView {
        StateView {
            trace: self.trace.subrange(0, at).push(output) + self.trace.subrange(
                at + inputs.len(),
                self.trace.len() as int,
            ),
            ..self
        }
    }
}


/// One operation on a shard, with its inputs.
pub enum TransitionView {
    RegisterWriter { writer_id: Seq<u8>, lease_duration: u64, now: u64 },
    RegisterLeasedReader { reader_id: Seq<u8>, lease_duration: u64, now: u64 },
    RegisterCriticalReader { reader_id: Seq<u8> },
    CompareAndAppend {
        writer_id: Seq<u8>,
        batch: BatchView,
        expected_lower: Seq<u64>,
        new_upper: Seq<u64>,
        now: u64,
    },
    HeartbeatWriter { writer_id: Seq<u8>, now: u64 },
    HeartbeatLeasedReader { reader_id: Seq<u8>, now: u64 },
    DowngradeSince { reader_id: Seq<u8>, new_since: Seq<u64> },
    CompareAndDowngradeSince {
        reader_id: Seq<u8>,
        expected_opaque: Seq<u8>,
        new_opaque: Seq<u8>,
        new_since: Seq<u64>,
    },
    ExpireWriter { writer_id: Seq<u8> },
    ExpireLeasedReader { reader_id: Seq<u8> },
    ExpireCriticalReader { reader_id: Seq<u8> },
    ApplyMergeRes { inputs: Seq<BatchView>, output: BatchView },
}

impl TransitionView {
    /// The frontiers among the inputs are antichains.
    pub open spec fn well_formed(self) -> bool {
        match self {
            TransitionView::CompareAndAppend { expected_lower, new_upper, .. } => is_antichain(
                expected_lower,
            ) && is_antichain(new_upper),
            TransitionView::DowngradeSince { new_since, .. } => is_antichain(new_since),
            TransitionView::CompareAndDowngradeSince { new_since, .. } => is_antichain(new_since),
            _ => true,
        }
    }

    /// The operation does not ask for a capability beyond the upper of the shard.
    pub open spec fn within_upper(self, s: StateView) -> bool {
        match self {
            TransitionView::DowngradeSince { new_since, .. } => frontier_le(new_since, s.upper),
            TransitionView::CompareAndDowngradeSince { new_since, .. } => frontier_le(
                new_since,
                s.upper,
            ),
            _ => true,
        }
    }

    /// Whether the operation makes a new version of the state. One that does not
    /// leaves the state as it is.
    pub open spec fn changes(self, s: StateView) -> bool {
        match self {
            TransitionView::RegisterWriter { .. } => true,
            TransitionView::RegisterLeasedReader { .. } => true,
            TransitionView::RegisterCriticalReader {
                reader_id,
            } => !s.critical_readers.contains_key(reader_id),
            TransitionView::CompareAndAppend {
                batch,
                expected_lower,
                new_upper,
                ..
            } => s.append_verdict(batch, expected_lower, new_upper) is Applied,
            TransitionView::HeartbeatWriter { writer_id, .. } => s.writers.contains_key(writer_id),
            TransitionView::HeartbeatLeasedReader {
                reader_id,
                ..
            } => s.leased_readers.contains_key(reader_id),
            TransitionView::DowngradeSince {
                reader_id,
                new_since,
            } => s.leased_readers.contains_key(reader_id) && downgraded(
                s.leased_readers[reader_id].since,
                new_since,
            ) != s.leased_readers[reader_id].since,
            TransitionView::CompareAndDowngradeSince {
                reader_id,
                expected_opaque,
                ..
            } => s.holds_opaque(reader_id, expected_opaque),
            TransitionView::ExpireWriter { writer_id } => s.writers.contains_key(writer_id),
            TransitionView::ExpireLeasedReader {
                reader_id,
            } => s.leased_readers.contains_key(reader_id),
            TransitionView::ExpireCriticalReader {
                reader_id,
            } => s.critical_readers.contains_key(reader_id),
            TransitionView::ApplyMergeRes { inputs, output } => s.merge_applies(inputs, output),
        }
    }

    /// What the operation makes of the state, the version apart.
    pub open spec fn apply(self, s: StateView) -> StateView {
        match self {
            TransitionView::RegisterWriter {
                writer_id,
                lease_duration,
                now,
            } => s.register_writer(writer_id, lease_duration, now),
            TransitionView::RegisterLeasedReader {
                reader_id,
                lease_duration,
                now,
            } => s.register_leased_reader(reader_id, lease_duration, now),
            TransitionView::RegisterCriticalReader { reader_id } => s.register_critical_reader(
                reader_id,
            ),
            TransitionView::CompareAndAppend {
                writer_id,
                batch,
                expected_lower,
                new_upper,
                now,
            } => s.compare_and_append(writer_id, batch, expected_lower, new_upper, now),
            TransitionView::HeartbeatWriter { writer_id, now } => s.heartbeat_writer(
                writer_id,
                now,
            ),
            TransitionView::HeartbeatLeasedReader { reader_id, now } => s.heartbeat_leased_reader(
                reader_id,
                now,
            ),
            TransitionView::DowngradeSince { reader_id, new_since } => s.downgrade_since(
                reader_id,
                new_since,
            ),
            TransitionView::CompareAndDowngradeSince {
                reader_id,
                expected_opaque,
                new_opaque,
                new_since,
            } => s.compare_and_downgrade_since(reader_id, expected_opaque, new_opaque, new_since),
            TransitionView::ExpireWriter { writer_id } => s.expire_writer(writer_id),
            TransitionView::ExpireLeasedReader { reader_id } => s.expire_leased_reader(reader_id),
            TransitionView::ExpireCriticalReader { reader_id } => s.expire_critical_reader(
                reader_id,
            ),
            TransitionView::ApplyMergeRes { inputs, output } => if s.merge_applies(
                inputs,
                output,
            ) {
                s.apply_merge_res(inputs, output, s.merge_position(inputs, output))
            } else {
                s
            },
        }
    }

    /// The state that the operation leaves: the next version where it changes
    /// something, and the state as it was where it does not.
    pub open spec fn step(self, s: StateView) -> StateView {
        if self.changes(s) {
            StateView { seqno: (s.seqno + 1) as u64, ..self.apply(s) }
        } else {
            s
        }
    }
}

/// `next` is a version that some operation made of `prev`.
pub open spec fn committed_after(prev: StateView, next: StateView) -> bool {
    exists|t: TransitionView|
        t.well_formed() && #[trigger] t.changes(prev) && prev.seqno < u64::MAX && next == t.step(
            prev,
        )
}

/// `next` is a version that some operation made of `prev` without asking for a
/// capability beyond the upper.
pub open spec fn committed_within_upper(prev: StateView, next: StateView) -> bool {
    exists|t: TransitionView|
        t.well_formed() && t.within_upper(prev) && #[trigger] t.changes(prev) && prev.seqno
            < u64::MAX && next == t.step(prev)
}

} // verus!
