//! The handle through which a reader holds a leased capability on a shard.

use crate::error::{InvalidUsage, InvalidUsageView};
use crate::frontier::{frontier_le, lemma_frontier_le_preorder, meet, Frontier};
use crate::ids::{LeasedReaderId, ShardId};
use crate::invariants::{lemma_tiles_consecutive, lemma_tiles_ordered};
use crate::machine::Machine;
use crate::model::{downgraded, BatchView, StateView, TransitionView};
use crate::state::{HollowBatch, State};
use crate::write::{heartbeat_due, is_heartbeat_due, Heartbeat};
use vstd::prelude::*;

verus! {

/// The since of a reader, as the answer to a read as of a time before it.
#[derive(Debug, PartialEq, Eq)]
pub struct Since(pub Frontier);

/// A batch that was handed out to a reader for fetching. As long as the reader
/// has it, its capability stays at or before the time that the batch is read
/// as of. The reader hands it back when it is done with it.
#[derive(Debug, PartialEq, Eq)]
pub struct LeasedBatchPart {
    /// The shard that the batch is in.
    pub shard_id: ShardId,
    /// The reader that holds the lease.
    pub reader_id: LeasedReaderId,
    /// What the batch covers and where its updates are.
    pub batch: HollowBatch,
    /// The time that the batch is read as of.
    pub as_of: Frontier,
}

/// The mathematical value of a list of frontiers.
pub open spec fn frontiers_view(frontiers: Seq<Frontier>) -> Seq<Seq<u64>> {
    frontiers.map_values(|f: Frontier| f@)
}

/// How far a capability may move while batches are on lease: to `new_since`,
/// but not beyond a time that one of them is read as of.
pub open spec fn held_back(new_since: Seq<u64>, leases: Seq<Seq<u64>>) -> Seq<u64>
    decreases leases.len(),
{
    if leases.len() == 0 {
        new_since
    } else {
        meet(held_back(new_since, leases.drop_last()), leases.last())
    }
}

/// The leases without the first one for the time `as_of`, if there is one.
pub open spec fn without_lease(leases: Seq<Seq<u64>>, as_of: Seq<u64>) -> Seq<Seq<u64>>
    decreases leases.len(),
{
    if leases.len() == 0 {
        leases
    } else if leases[0] == as_of {
        leases.drop_first()
    } else {
        seq![leases[0]] + without_lease(leases.drop_first(), as_of)
    }
}

/// Taking the first lease for a time away is taking the lease at its index away,
/// and changes nothing where there is no lease for the time.
pub proof fn lemma_without_lease(leases: Seq<Seq<u64>>, as_of: Seq<u64>, n: int)
    requires
        0 <= n <= leases.len(),
        forall|j: int| 0 <= j < n ==> leases[j] != as_of,
        n < leases.len() ==> leases[n] == as_of,
    ensures
        without_lease(leases, as_of) == (if n < leases.len() {
            leases.remove(n)
        } else {
            leases
        }),
    decreases leases.len(),
{
    if leases.len() > 0 && n > 0 {
        let rest = leases.drop_first();
        assert forall|j: int| 0 <= j < n - 1 implies rest[j] != as_of by {
            assert(rest[j] == leases[j + 1]);
        }
        lemma_without_lease(rest, as_of, n - 1);
        if n < leases.len() {
            assert(seq![leases[0]] + rest.remove(n - 1) =~= leases.remove(n));
        } else {
            assert(seq![leases[0]] + rest =~= leases);
        }
    } else if leases.len() > 0 {
        assert(leases.drop_first() =~= leases.remove(0));
    }
}

/// What a reader gets when it asks for a snapshot.
#[derive(Debug, PartialEq, Eq)]
pub enum Snapshot {
    /// The batches that hold the history up to the time asked for, each on lease.
    Ready(Vec<LeasedBatchPart>),
    /// The upper of the shard is not beyond the time asked for yet: the
    /// reader has to wait and ask again.
    NotYet,
}

/// The state after a reader moved its capability and gave a sign of life.
pub open spec fn downgrade_and_heartbeat(
    s: StateView,
    reader_id: Seq<u8>,
    new_since: Seq<u64>,
    now: u64,
) -> StateView {
    (TransitionView::HeartbeatLeasedReader { reader_id, now }).step(
        (TransitionView::DowngradeSince { reader_id, new_since }).step(s),
    )
}

/// A handle for reading one shard. It caches the since capability that the
/// reader holds, and the time of its last sign of life.
#[derive(Debug, PartialEq, Eq)]
pub struct ReadHandle {
    /// The shard that the handle reads.
    pub shard_id: ShardId,
    /// The reader as the shard knows it.
    pub reader_id: LeasedReaderId,
    /// The capability of the reader.
    pub since: Frontier,
    /// The time of the last sign of life, in milliseconds.
    pub last_heartbeat: u64,
    /// The length of the lease, in milliseconds.
    pub lease_duration: u64,
    /// The times that the batches on lease are read as of, one for each batch
    /// that was handed out and is not handed back yet.
    pub leased: Vec<Frontier>,
}

impl ReadHandle {
    /// A handle for a reader that was registered at `now`.
    pub fn new(
        shard_id: ShardId,
        reader_id: LeasedReaderId,
        since: Frontier,
        lease_duration: u64,
        now: u64,
    ) -> (handle: ReadHandle)
        ensures
            handle.shard_id == shard_id,
            handle.reader_id == reader_id,
            handle.since@ == since@,
            handle.last_heartbeat == now,
            handle.lease_duration == lease_duration,
            handle.leased@.len() == 0,
    {
        ReadHandle {
            shard_id,
            reader_id,
            since,
            last_heartbeat: now,
            lease_duration,
            leased: Vec::new(),
        }
    }

    /// How far the capability may move towards `new_since`, given the batches
    /// that are on lease.
    pub fn held_back_since(&self, new_since: &Frontier) -> (held: Frontier)
        ensures
            held@ == held_back(new_since@, frontiers_view(self.leased@)),
    {
        let ghost leases = frontiers_view(self.leased@);
        let mut held = new_since.clone();
        let mut i: usize = 0;
        while i < self.leased.len()
            invariant
                i <= self.leased.len(),
                leases == frontiers_view(self.leased@),
                held@ == held_back(new_since@, leases.take(i as int)),
            decreases self.leased.len() - i,
        {
            proof {
                assert(leases.take(i + 1).drop_last() =~= leases.take(i as int));
                assert(leases.take(i + 1).last() == self.leased@[i as int]@);
            }
            held = held.meet(&self.leased[i]);
            i += 1;
        }
        proof {
            assert(leases.take(i as int) =~= leases);
        }
        held
    }

    /// Takes back a batch that was handed out to this reader, so that it holds
    /// the capability of the reader back no longer. A batch of another reader
    /// changes nothing.
    pub fn process_returned_leased_part(&mut self, part: LeasedBatchPart)
        ensures
            final(self).shard_id == old(self).shard_id,
            final(self).reader_id == old(self).reader_id,
            final(self).since == old(self).since,
            final(self).last_heartbeat == old(self).last_heartbeat,
            final(self).lease_duration == old(self).lease_duration,
            frontiers_view(final(self).leased@) == (if part.reader_id@ == old(self).reader_id@ {
                without_lease(frontiers_view(old(self).leased@), part.as_of@)
            } else {
                frontiers_view(old(self).leased@)
            }),
    {
        if !part.reader_id.same(&self.reader_id) {
            return ;
        }
        let ghost leases = frontiers_view(self.leased@);
        let mut i: usize = 0;
        while i < self.leased.len()
            invariant
                i <= self.leased.len(),
                *self == *old(self),
                part.reader_id@ == self.reader_id@,
                leases == frontiers_view(self.leased@),
                forall|j: int| 0 <= j < i ==> leases[j] != part.as_of@,
            decreases self.leased.len() - i,
        {
            if self.leased[i].eq(&part.as_of) {
                proof {
                    assert(leases[i as int] == part.as_of@);
                    lemma_without_lease(leases, part.as_of@, i as int);
                }
                self.leased.remove(i);
                proof {
                    assert(frontiers_view(self.leased@) =~= leases.remove(i as int));
                }
                return ;
            }
            i += 1;
        }
        proof {
            lemma_without_lease(leases, part.as_of@, leases.len() as int);
        }
    }

    /// The capability of the reader: reads as of times at or beyond it are served.
    pub fn since(&self) -> (since: &Frontier)
        ensures
            since@ == self.since@,
    {
        &self.since
    }

    /// Moves the capability of the reader forward to `new_since`, but not beyond
    /// a time that a batch on lease is read as of, and gives a sign of life. A
    /// time that is not at or beyond the capability leaves it where it is. A
    /// handle whose reader the shard has removed stays as it is.
    pub fn downgrade_since(&mut self, machine: &mut Machine, new_since: &Frontier, now: u64)
        requires
            old(machine).wf(),
            old(machine)@.seqno + 2 < u64::MAX,
        ensures
            final(machine).wf(),
            final(machine)@ == downgrade_and_heartbeat(
                old(machine)@,
                old(self).reader_id@,
                held_back(new_since@, frontiers_view(old(self).leased@)),
                now,
            ),
            final(self).shard_id == old(self).shard_id,
            final(self).reader_id == old(self).reader_id,
            final(self).lease_duration == old(self).lease_duration,
            final(self).leased == old(self).leased,
            old(machine)@.leased_readers.contains_key(old(self).reader_id@) ==> final(self).since@
                == downgraded(
                old(machine)@.leased_readers[old(self).reader_id@].since,
                held_back(new_since@, frontiers_view(old(self).leased@)),
            ) && final(self).last_heartbeat == now,
            !old(machine)@.leased_readers.contains_key(old(self).reader_id@) ==> *final(self)
                == *old(self),
    {
        let held = self.held_back_since(new_since);
        match machine.downgrade_since(&self.reader_id, &held) {
            Some(since) => {
                self.since = since;
            },
            None => {},
        }
        proof {
            let t = TransitionView::DowngradeSince {
                reader_id: self.reader_id@,
                new_since: held@,
            };
            assert(t.step(old(machine)@).leased_readers.contains_key(self.reader_id@) == old(machine)@.leased_readers.contains_key(self.reader_id@));
        }
        if machine.heartbeat_leased_reader(&self.reader_id, now) {
            self.last_heartbeat = now;
        }
    }

    /// Gives a sign of life if one is due: if at least half of the lease has
    /// passed since the last one. A handle whose reader the shard has removed
    /// learns so, and the shard stays as it is.
    pub fn maybe_heartbeat_reader(&mut self, machine: &mut Machine, now: u64) -> (r: Heartbeat)
        requires
            old(machine).wf(),
            old(machine)@.seqno + 1 < u64::MAX,
        ensures
            final(machine).wf(),
            final(self).shard_id == old(self).shard_id,
            final(self).reader_id == old(self).reader_id,
            final(self).since == old(self).since,
            final(self).lease_duration == old(self).lease_duration,
            final(self).leased == old(self).leased,
            final(machine)@ == (if heartbeat_due(
                old(self).last_heartbeat,
                old(self).lease_duration,
                now,
            ) {
                (TransitionView::HeartbeatLeasedReader {
                    reader_id: old(self).reader_id@,
                    now,
                }).step(old(machine)@)
            } else {
                old(machine)@
            }),
            r == (if !heartbeat_due(old(self).last_heartbeat, old(self).lease_duration, now) {
                Heartbeat::NotDue
            } else if old(machine)@.leased_readers.contains_key(old(self).reader_id@) {
                Heartbeat::Extended
            } else {
                Heartbeat::Expired
            }),
            final(self).last_heartbeat == (if r == Heartbeat::Extended {
                now
            } else {
                old(self).last_heartbeat
            }),
    {
        if !is_heartbeat_due(self.last_heartbeat, self.lease_duration, now) {
            return Heartbeat::NotDue;
        }
        if machine.heartbeat_leased_reader(&self.reader_id, now) {
            self.last_heartbeat = now;
            Heartbeat::Extended
        } else {
            Heartbeat::Expired
        }
    }

    /// The batches that a snapshot as of `as_of` reads.
    ///
    /// A time that the capability of the reader does not reach cannot be served:
    /// the capability comes back. A time that the upper of the shard is not yet
    /// beyond has to be waited for. Else the snapshot reads the batches of the
    /// trace that start at or before `as_of`, which are the first ones of it.
    /// Each is handed out on lease, and holds the capability of the reader at
    /// or before `as_of` until it is handed back.
    pub fn snapshot(&mut self, state: &State, as_of: &Frontier) -> (r: Result<Snapshot, Since>)
        requires
            state.wf(),
        ensures
            final(self).shard_id == old(self).shard_id,
            final(self).reader_id == old(self).reader_id,
            final(self).since == old(self).since,
            final(self).last_heartbeat == old(self).last_heartbeat,
            final(self).lease_duration == old(self).lease_duration,
            match r {
                Err(since) => !frontier_le(old(self).since@, as_of@) && since.0@ == old(self).since@ && final(self).leased == old(self).leased,
                Ok(Snapshot::NotYet) => frontier_le(old(self).since@, as_of@) && !frontier_lt(
                    as_of@,
                    state@.upper,
                ) && final(self).leased == old(self).leased,
                Ok(Snapshot::Ready(parts)) => frontier_le(old(self).since@, as_of@) && frontier_lt(
                    as_of@,
                    state@.upper,
                ) && parts@.len() <= state@.trace.len() && (forall|i: int|
                    0 <= i < parts@.len() ==> (#[trigger] parts@[i]).batch@ == state@.trace[i]
                        && parts@[i].as_of@ == as_of@ && parts@[i].reader_id == old(self).reader_id
                        && parts@[i].shard_id == old(self).shard_id) && (forall|i: int|
                    0 <= i < state@.trace.len() ==> (i < parts@.len() <==> frontier_le(
                        (#[trigger] state@.trace[i]).lower,
                        as_of@,
                    ))) && frontiers_view(final(self).leased@) == frontiers_view(
                    old(self).leased@,
                ) + Seq::new(parts@.len(), |i: int| as_of@),
            },
    {
        if !self.since.less_equal(as_of) {
            return Err(Since(self.since.clone()));
        }
        if !as_of.less_than(state.upper()) {
            return Ok(Snapshot::NotYet);
        }
        let mut parts: Vec<LeasedBatchPart> = Vec::new();
        let n = state.trace_len();
        let mut i: usize = 0;
        while i < n && state.batch(i).lower.less_equal(as_of)
            invariant
                state.wf(),
                n == state@.trace.len(),
                i <= n,
                parts@.len() == i,
                self.shard_id == old(self).shard_id,
                self.reader_id == old(self).reader_id,
                self.since == old(self).since,
                self.last_heartbeat == old(self).last_heartbeat,
                self.lease_duration == old(self).lease_duration,
                forall|j: int|
                    0 <= j < i ==> (#[trigger] parts@[j]).batch@ == state@.trace[j]
                        && parts@[j].as_of@ == as_of@ && parts@[j].reader_id == self.reader_id
                        && parts@[j].shard_id == self.shard_id,
                forall|j: int|
                    0 <= j < i ==> frontier_le((#[trigger] state@.trace[j]).lower, as_of@),
                frontiers_view(self.leased@) == frontiers_view(old(self).leased@) + Seq::new(
                    i as nat,
                    |k: int| as_of@,
                ),
            decreases n - i,
        {
            let ghost before = frontiers_view(self.leased@);
            parts.push(
                LeasedBatchPart {
                    shard_id: self.shard_id,
                    reader_id: self.reader_id,
                    batch: state.batch(i).clone(),
                    as_of: as_of.clone(),
                },
            );
            self.leased.push(as_of.clone());
            proof {
                assert(frontiers_view(self.leased@) =~= before.push(as_of@));
                assert(before.push(as_of@) =~= frontiers_view(old(self).leased@) + Seq::new(
                    (i + 1) as nat,
                    |k: int| as_of@,
                ));
            }
            i += 1;
        }
        proof {
            let trace = state@.trace;
            assert forall|j: int| 0 <= j < trace.len() implies (j < i <==> frontier_le(
                (#[trigger] trace[j]).lower,
                as_of@,
            )) by {
                if j >= i && frontier_le(trace[j].lower, as_of@) {
                    // A later batch starts at or beyond the first one left out.
                    if j > i {
                        lemma_tiles_consecutive(trace, state@.upper, i as int, j);
                        lemma_tiles_ordered(trace, state@.upper, i as int, i as int);
                        lemma_frontier_le_preorder(
                            trace[i as int].lower,
                            trace[i as int].upper,
                            trace[j].lower,
                        );
                        lemma_frontier_le_preorder(trace[i as int].lower, trace[j].lower, as_of@);
                    }
                }
            }
        }
        Ok(Snapshot::Ready(parts))
    }

    /// Gives up the capability of the reader, and says whether the shard knew
    /// the reader still.
    pub fn expire(self, machine: &mut Machine) -> (existed: bool)
        requires
            old(machine).wf(),
            old(machine)@.seqno + 1 < u64::MAX,
        ensures
            final(machine).wf(),
            final(machine)@ == (TransitionView::ExpireLeasedReader {
                reader_id: self.reader_id@,
            }).step(old(machine)@),
            existed == old(machine)@.leased_readers.contains_key(self.reader_id@),
    {
        machine.expire_leased_reader(&self.reader_id)
    }
}


/// What a listener learns of a shard.
#[derive(Debug, PartialEq, Eq)]
pub enum ListenEvent {
    /// The updates of this batch are new.
    Updates(HollowBatch),
    /// The upper of the shard has moved to this frontier.
    Progress(Frontier),
}

/// The mathematical value of a [`ListenEvent`].
pub enum ListenEventView {
    Updates(BatchView),
    Progress(Seq<u64>),
}

impl View for ListenEvent {
    type V = ListenEventView;

    open spec fn view(&self) -> ListenEventView {
        match self {
            ListenEvent::Updates(batch) => ListenEventView::Updates(batch@),
            ListenEvent::Progress(upper) => ListenEventView::Progress(upper@),
        }
    }
}

/// `a` is before `b`: at or before it, and not the same.
pub open spec fn frontier_lt(a: Seq<u64>, b: Seq<u64>) -> bool {
    frontier_le(a, b) && a != b
}

/// A listener on a shard: it has seen the shard up to its frontier.
#[derive(Debug, PartialEq, Eq)]
pub struct Listen {
    /// The time as of which the listener started.
    pub as_of: Frontier,
    /// The frontier up to which the listener has seen the shard.
    pub frontier: Frontier,
}

impl ReadHandle {
    /// A listener that starts as of `as_of`, which the capability of the reader
    /// has to reach. It has seen nothing beyond `as_of` yet.
    pub fn listen(&self, as_of: Frontier) -> (r: Result<Listen, Since>)
        ensures
            match r {
                Ok(listen) => frontier_le(self.since@, as_of@) && listen.as_of@ == as_of@
                    && listen.frontier@ == as_of@,
                Err(since) => !frontier_le(self.since@, as_of@) && since.0@ == self.since@,
            },
    {
        if !self.since.less_equal(&as_of) {
            return Err(Since(self.since.clone()));
        }
        let frontier = as_of.clone();
        Ok(Listen { as_of, frontier })
    }
}

impl Listen {
    /// What is new in the shard since the listener last looked: for each batch
    /// that ends beyond the frontier of the listener, in the order of the
    /// trace, its updates and then the progress to its upper. These are the last
    /// batches of the trace. The frontier of the listener moves to the upper
    /// of the shard if anything is new.
    pub fn next(&mut self, state: &State) -> (events: Vec<ListenEvent>)
        requires
            state.wf(),
        ensures
            final(self).as_of == old(self).as_of,
            events@.len() % 2 == 0,
            events@.len() / 2 <= state@.trace.len(),
            forall|j: int|
                0 <= j < events@.len() / 2 ==> (#[trigger] events@[2 * j])@
                    == ListenEventView::Updates(
                    state@.trace[state@.trace.len() - events@.len() / 2 + j],
                ) && events@[2 * j + 1]@ == ListenEventView::Progress(
                    state@.trace[state@.trace.len() - events@.len() / 2 + j].upper,
                ),
            forall|i: int|
                0 <= i < state@.trace.len() ==> (i >= state@.trace.len() - events@.len() / 2
                    <==> frontier_lt(old(self).frontier@, (#[trigger] state@.trace[i]).upper)),
            final(self).frontier@ == (if events@.len() > 0 {
                state@.upper
            } else {
                old(self).frontier@
            }),
    {
        let n = state.trace_len();
        let ghost trace = state@.trace;
        let mut k: usize = 0;
        while k < n && !self.frontier.less_than(&state.batch(k).upper)
            invariant
                state.wf(),
                trace == state@.trace,
                n == trace.len(),
                k <= n,
                forall|i: int| 0 <= i < k ==> !frontier_lt(self.frontier@, (#[trigger] trace[i]).upper),
            decreases n - k,
        {
            k += 1;
        }
        proof {
            // From the first batch that ends beyond the frontier on, all do.
            assert forall|i: int| k <= i < n implies frontier_lt(
                self.frontier@,
                (#[trigger] trace[i]).upper,
            ) by {
                if i > k {
                    lemma_tiles_consecutive(trace, state@.upper, k as int, i);
                    lemma_tiles_ordered(trace, state@.upper, i, i);
                    lemma_frontier_le_preorder(trace[k as int].upper, trace[i].lower, trace[i].upper);
                    lemma_frontier_le_preorder(self.frontier@, trace[k as int].upper, trace[i].upper);
                    if self.frontier@ == trace[i].upper {
                        lemma_frontier_le_preorder(trace[i].upper, trace[k as int].upper, trace[i].lower);
                    }
                }
            }
        }
        let mut events: Vec<ListenEvent> = Vec::new();
        let mut i: usize = k;
        while i < n
            invariant
                state.wf(),
                trace == state@.trace,
                n == trace.len(),
                k <= i <= n,
                events@.len() == 2 * (i - k),
                forall|j: int|
                    0 <= j < i - k ==> (#[trigger] events@[2 * j])@ == ListenEventView::Updates(
                        trace[k + j],
                    ) && events@[2 * j + 1]@ == ListenEventView::Progress(trace[k + j].upper),
            decreases n - i,
        {
            let batch = state.batch(i);
            let ghost before = events@;
            events.push(ListenEvent::Updates(batch.clone()));
            events.push(ListenEvent::Progress(batch.upper.clone()));
            proof {
                assert forall|j: int| 0 <= j < i + 1 - k implies (#[trigger] events@[2 * j])@
                    == ListenEventView::Updates(trace[k + j]) && events@[2 * j + 1]@
                    == ListenEventView::Progress(trace[k + j].upper) by {
                    if j < i - k {
                        assert(events@[2 * j] == before[2 * j]);
                        assert(events@[2 * j + 1] == before[2 * j + 1]);
                    }
                }
            }
            i += 1;
        }
        if k < n {
            self.frontier = state.upper().clone();
        }
        proof {
            assert(events@.len() / 2 == n - k);
        }
        events
    }
}


/// Fetches the updates of the batches of one shard.
#[derive(Debug, PartialEq, Eq, Clone, Copy)]
pub struct BatchFetcher {
    /// The shard whose batches the fetcher fetches.
    pub shard_id: ShardId,
}

impl ReadHandle {
    /// A fetcher for the batches of the shard of this handle.
    pub fn batch_fetcher(&self) -> (fetcher: BatchFetcher)
        ensures
            fetcher.shard_id == self.shard_id,
    {
        BatchFetcher { shard_id: self.shard_id }
    }
}

impl BatchFetcher {
    /// Decides whether a batch on lease is one that this fetcher fetches: a
    /// batch of another shard is refused.
    pub fn fetch_leased_part(&self, part: &LeasedBatchPart) -> (r: Result<(), InvalidUsage>)
        ensures
            match r {
                Ok(()) => part.shard_id@ == self.shard_id@,
                Err(e) => part.shard_id@ != self.shard_id@ && e@ == (
                InvalidUsageView::BatchNotFromThisShard {
                    batch_shard: part.shard_id@,
                    handle_shard: self.shard_id@,
                }),
            },
    {
        if part.shard_id.same(&self.shard_id) {
            Ok(())
        } else {
            Err(
                InvalidUsage::BatchNotFromThisShard {
                    batch_shard: part.shard_id,
                    handle_shard: self.shard_id,
                },
            )
        }
    }
}

} // verus!
