//! The authoritative record of one shard, and the pure transitions that evolve it.
//!
//! A transition takes the current state and the inputs of one operation. It never
//! performs I/O. Each is proved to compute what the model says of it.

use crate::error::{InvalidUsage, InvalidUsageView};
use crate::frontier::{
    frontier_le, is_antichain, lemma_frontier_le_preorder, lemma_meet,
    lemma_meet_is_greatest_lower_bound, Frontier,
};
use crate::ids::{CriticalReaderId, LeasedReaderId, ShardId, WriterId};
use crate::invariants::{
    lemma_apply_merge_res, lemma_compare_and_append, lemma_compare_and_downgrade_since,
    lemma_merge_applies_once, lemma_since_is_held, lemma_downgrade_since, lemma_expire_critical_reader,
    lemma_expire_leased_reader, lemma_expire_writer, lemma_heartbeat_leased_reader,
    lemma_heartbeat_writer, lemma_held_since_is, lemma_init, lemma_register_critical_reader,
    lemma_register_leased_reader, lemma_register_writer,
};
use crate::model::{
    downgraded, heartbeat, lease_end, lower_bound, run_at, tiles, AppendVerdict,
    BatchView,
    TransitionView, CodecsView, CriticalReaderView,
    LeasedReaderView, StateView, WriterState,
};
use crate::registry::Registry;
use vstd::prelude::*;

verus! {

/// The names of the four codecs of a shard: of its keys, values, timestamps and diffs.
///
/// Codecs are compared by name. They are fixed when the shard is created.
#[derive(Debug, PartialEq, Eq)]
pub struct Codecs {
    pub key: String,
    pub val: String,
    pub ts: String,
    pub diff: String,
}

impl View for Codecs {
    type V = CodecsView;

    open spec fn view(&self) -> CodecsView {
        CodecsView { key: self.key@, val: self.val@, ts: self.ts@, diff: self.diff@ }
    }
}

impl Codecs {
    /// Whether the four names are the same.
    pub fn same(&self, other: &Codecs) -> (same: bool)
        ensures
            same == (self@ == other@),
    {
        self.key == other.key && self.val == other.val && self.ts == other.ts && self.diff
            == other.diff
    }

    /// A copy of the four names.
    pub fn clone(&self) -> (c: Codecs)
        ensures
            c@ == self@,
    {
        Codecs {
            key: self.key.clone(),
            val: self.val.clone(),
            ts: self.ts.clone(),
            diff: self.diff.clone(),
        }
    }
}

/// The descriptor of a batch in the trace: the interval `[lower, upper)` of times
/// that it covers, the since to which it was compacted, the keys of the blob parts
/// that hold its updates, and how many updates these are.
#[derive(Debug, PartialEq, Eq)]
pub struct HollowBatch {
    pub lower: Frontier,
    pub upper: Frontier,
    pub since: Frontier,
    pub parts: Vec<String>,
    pub len: usize,
}

impl View for HollowBatch {
    type V = BatchView;

    open spec fn view(&self) -> BatchView {
        BatchView {
            lower: self.lower@,
            upper: self.upper@,
            since: self.since@,
            parts: self.parts@.map_values(|p: String| p@),
            len: self.len as nat,
        }
    }
}

impl HollowBatch {
    /// Whether both descriptors say the same.
    pub fn same(&self, other: &HollowBatch) -> (same: bool)
        ensures
            same == (self@ == other@),
    {
        if !(self.lower.eq(&other.lower) && self.upper.eq(&other.upper) && self.since.eq(
            &other.since,
        ) && self.len == other.len && self.parts.len() == other.parts.len()) {
            assert(self@.parts.len() == self.parts@.len() && other@.parts.len() == other.parts@.len());
            return false;
        }
        let mut i: usize = 0;
        while i < self.parts.len()
            invariant
                i <= self.parts.len(),
                self.parts.len() == other.parts.len(),
                forall|j: int| 0 <= j < i ==> self.parts@[j]@ == other.parts@[j]@,
            decreases self.parts.len() - i,
        {
            if self.parts[i] != other.parts[i] {
                assert(self@.parts[i as int] != other@.parts[i as int]);
                return false;
            }
            i += 1;
        }
        assert(self@.parts =~= other@.parts);
        true
    }

    /// A copy of the descriptor.
    pub fn clone(&self) -> (c: HollowBatch)
        ensures
            c@ == self@,
    {
        let mut parts: Vec<String> = Vec::new();
        let mut i: usize = 0;
        while i < self.parts.len()
            invariant
                i <= self.parts.len(),
                parts@.len() == i,
                forall|j: int| 0 <= j < i ==> parts@[j]@ == self.parts@[j]@,
            decreases self.parts.len() - i,
        {
            parts.push(self.parts[i].clone());
            i += 1;
        }
        let c = HollowBatch {
            lower: self.lower.clone(),
            upper: self.upper.clone(),
            since: self.since.clone(),
            parts,
            len: self.len,
        };
        assert(c@.parts =~= self@.parts);
        c
    }
}

/// What the shard records of a leased reader.
#[derive(Debug, PartialEq, Eq)]
pub struct LeasedReaderState {
    /// The since capability of the reader.
    pub since: Frontier,
    /// The time, in milliseconds, after which peers may expire the reader.
    pub lease_deadline: u64,
    /// The time, in milliseconds, at which the reader last gave a sign of life.
    pub last_heartbeat: u64,
}

impl View for LeasedReaderState {
    type V = LeasedReaderView;

    open spec fn view(&self) -> LeasedReaderView {
        LeasedReaderView {
            since: self.since@,
            lease_deadline: self.lease_deadline,
            last_heartbeat: self.last_heartbeat,
        }
    }
}

/// What the shard records of a critical reader.
#[derive(Debug, PartialEq, Eq)]
pub struct CriticalReaderState {
    /// The since capability of the reader.
    pub since: Frontier,
    /// The token of the holder, compared and swapped on each downgrade.
    pub opaque: [u8; 8],
}

impl View for CriticalReaderState {
    type V = CriticalReaderView;

    open spec fn view(&self) -> CriticalReaderView {
        CriticalReaderView { since: self.since@, opaque: self.opaque@ }
    }
}


impl LeasedReaderState {
    /// A copy of the registration.
    pub fn clone(&self) -> (c: LeasedReaderState)
        ensures
            c@ == self@,
    {
        LeasedReaderState {
            since: self.since.clone(),
            lease_deadline: self.lease_deadline,
            last_heartbeat: self.last_heartbeat,
        }
    }
}

impl CriticalReaderState {
    /// A copy of the registration.
    pub fn clone(&self) -> (c: CriticalReaderState)
        ensures
            c@ == self@,
    {
        CriticalReaderState { since: self.since.clone(), opaque: self.opaque }
    }
}

/// The end of a lease taken at `now` for `lease_duration` milliseconds.
pub fn lease_deadline(now: u64, lease_duration: u64) -> (end: u64)
    ensures
        end == lease_end(now, lease_duration),
{
    if lease_duration > u64::MAX - now {
        u64::MAX
    } else {
        now + lease_duration
    }
}

/// The registration of a participant after a sign of life at `now`.
pub fn heartbeat_lease(w: WriterState, now: u64) -> (after: WriterState)
    ensures
        after == heartbeat(w, now),
{
    if now <= w.last_heartbeat {
        w
    } else {
        let length = if w.lease_deadline >= w.last_heartbeat {
            w.lease_deadline - w.last_heartbeat
        } else {
            0
        };
        let end = lease_deadline(now, length);
        WriterState {
            lease_deadline: if w.lease_deadline <= end {
                end
            } else {
                w.lease_deadline
            },
            last_heartbeat: now,
        }
    }
}

/// The state of one shard.
#[derive(Debug)]
pub struct State {
    shard_id: ShardId,
    seqno: u64,
    codecs: Codecs,
    since: Frontier,
    upper: Frontier,
    trace: Vec<HollowBatch>,
    leased_readers: Registry<LeasedReaderState>,
    critical_readers: Registry<CriticalReaderState>,
    writers: Registry<WriterState>,
}

impl View for State {
    type V = StateView;

    closed spec fn view(&self) -> StateView {
        StateView {
            shard_id: self.shard_id@,
            seqno: self.seqno,
            codecs: self.codecs@,
            since: self.since@,
            upper: self.upper@,
            trace: self.trace@.map_values(|b: HollowBatch| b@),
            leased_readers: self.leased_readers.map().map_values(|r: LeasedReaderState| r@),
            critical_readers: self.critical_readers.map().map_values(|r: CriticalReaderState| r@),
            writers: self.writers.map(),
        }
    }
}

impl State {
    /// The registries hold each identifier once.
    pub closed spec fn registered_once(&self) -> bool {
        self.leased_readers.wf() && self.critical_readers.wf() && self.writers.wf()
    }

    /// The state is one that the transitions keep: see [`StateView::wf`].
    pub open spec fn wf(&self) -> bool {
        self.registered_once() && self@.wf()
    }

    /// The state of a shard that nobody has written to or read from yet.
    pub fn new(shard_id: ShardId, codecs: Codecs) -> (state: State)
        ensures
            state.wf(),
            state@ == StateView::init(shard_id@, codecs@),
    {
        let state = State {
            shard_id,
            seqno: 0,
            codecs,
            since: Frontier::minimum(),
            upper: Frontier::minimum(),
            trace: Vec::new(),
            leased_readers: Registry::new(),
            critical_readers: Registry::new(),
            writers: Registry::new(),
        };
        proof {
            lemma_init(shard_id@, codecs@);
            assert(state@.trace =~= Seq::<BatchView>::empty());
            assert(state@.leased_readers =~= Map::<Seq<u8>, LeasedReaderView>::empty());
            assert(state@.critical_readers =~= Map::<Seq<u8>, CriticalReaderView>::empty());
        }
        state
    }

    /// The shard that this is the state of.
    pub fn shard_id(&self) -> (id: ShardId)
        ensures
            id@ == self@.shard_id,
    {
        self.shard_id
    }

    /// The version of the state.
    pub fn seqno(&self) -> (seqno: u64)
        ensures
            seqno == self@.seqno,
    {
        self.seqno
    }

    /// The codecs that the shard was created with.
    pub fn codecs(&self) -> (codecs: &Codecs)
        ensures
            codecs@ == self@.codecs,
    {
        &self.codecs
    }

    /// The frontier below which historical detail may have been compacted away.
    pub fn since(&self) -> (since: &Frontier)
        ensures
            since@ == self@.since,
    {
        &self.since
    }

    /// The frontier of the times that writers may still write.
    pub fn upper(&self) -> (upper: &Frontier)
        ensures
            upper@ == self@.upper,
    {
        &self.upper
    }

    /// The number of batches in the trace.
    pub fn trace_len(&self) -> (n: usize)
        ensures
            n == self@.trace.len(),
    {
        self.trace.len()
    }

    /// The batch at an index of the trace.
    pub fn batch(&self, i: usize) -> (batch: &HollowBatch)
        requires
            i < self@.trace.len(),
        ensures
            batch@ == self@.trace[i as int],
    {
        &self.trace[i]
    }

    /// What is recorded of a writer.
    pub fn writer(&self, writer_id: &WriterId) -> (found: Option<WriterState>)
        requires
            self.wf(),
        ensures
            match found {
                Some(w) => self@.writers.contains_key(writer_id@) && w == self@.writers[writer_id@],
                None => !self@.writers.contains_key(writer_id@),
            },
    {
        match self.writers.get(&writer_id.0) {
            Some(w) => Some(*w),
            None => None,
        }
    }

    /// What is recorded of a leased reader.
    pub fn leased_reader(&self, reader_id: &LeasedReaderId) -> (found: Option<&LeasedReaderState>)
        requires
            self.wf(),
        ensures
            match found {
                Some(r) => self@.leased_readers.contains_key(reader_id@) && r@
                    == self@.leased_readers[reader_id@],
                None => !self@.leased_readers.contains_key(reader_id@),
            },
    {
        self.leased_readers.get(&reader_id.0)
    }

    /// What is recorded of a critical reader.
    pub fn critical_reader(&self, reader_id: &CriticalReaderId) -> (found: Option<
        &CriticalReaderState,
    >)
        requires
            self.wf(),
        ensures
            match found {
                Some(r) => self@.critical_readers.contains_key(reader_id@) && r@
                    == self@.critical_readers[reader_id@],
                None => !self@.critical_readers.contains_key(reader_id@),
            },
    {
        self.critical_readers.get(&reader_id.0)
    }

    /// Registers a writer, or refreshes the lease of one that is registered, and
    /// hands out the upper of the shard and what is now recorded of the writer.
    pub fn register_writer(&mut self, writer_id: &WriterId, lease_duration: u64, now: u64) -> (r: (
        Frontier,
        WriterState,
    ))
        requires
            old(self).wf(),
        ensures
            final(self).wf(),
            final(self)@ == old(self)@.register_writer(writer_id@, lease_duration, now),
            r.0@ == old(self)@.upper,
            r.1 == final(self)@.writers[writer_id@],
    {
        let writer = WriterState {
            lease_deadline: lease_deadline(now, lease_duration),
            last_heartbeat: now,
        };
        self.writers.insert(writer_id.0, writer);
        proof {
            lemma_register_writer(old(self)@, writer_id@, lease_duration, now);
        }
        (self.upper.clone(), writer)
    }

    /// Records a sign of life of a writer, and says whether it is registered.
    pub fn heartbeat_writer(&mut self, writer_id: &WriterId, now: u64) -> (registered: bool)
        requires
            old(self).wf(),
        ensures
            final(self).wf(),
            final(self)@ == old(self)@.heartbeat_writer(writer_id@, now),
            registered == old(self)@.writers.contains_key(writer_id@),
    {
        proof {
            lemma_heartbeat_writer(self@, writer_id@, now);
        }
        match self.writers.get(&writer_id.0) {
            Some(w) => {
                let after = heartbeat_lease(*w, now);
                self.writers.insert(writer_id.0, after);
                true
            },
            None => false,
        }
    }

    /// Removes a writer, and says whether it was registered.
    pub fn expire_writer(&mut self, writer_id: &WriterId) -> (existed: bool)
        requires
            old(self).wf(),
        ensures
            final(self).wf(),
            final(self)@ == old(self)@.expire_writer(writer_id@),
            existed == old(self)@.writers.contains_key(writer_id@),
    {
        proof {
            lemma_expire_writer(self@, writer_id@);
        }
        self.writers.remove(&writer_id.0).is_some()
    }
}


/// How a critical reader's request to move its capability fared.
#[derive(Debug, PartialEq, Eq)]
pub enum SinceDowngrade {
    /// The token was the expected one. The capability is now at this frontier.
    Downgraded(Frontier),
    /// The reader holds another token, this one. Nothing changed.
    OpaqueMismatch([u8; 8]),
    /// No such reader is registered. Nothing changed.
    NotRegistered,
}

/// Whether two tokens hold the same bytes.
pub fn same_opaque(a: &[u8; 8], b: &[u8; 8]) -> (same: bool)
    ensures
        same == (a@ == b@),
{
    let mut i: usize = 0;
    while i < 8
        invariant
            i <= 8,
            forall|j: int| 0 <= j < i ==> a@[j] == b@[j],
        decreases 8 - i,
    {
        if a[i] != b[i] {
            return false;
        }
        i += 1;
    }
    assert(a@ =~= b@);
    true
}

/// Moves a capability to `new_since` if that is at or beyond it.
pub fn downgrade(since: &Frontier, new_since: &Frontier) -> (moved: Frontier)
    ensures
        moved@ == downgraded(since@, new_since@),
{
    if since.less_equal(new_since) {
        new_since.clone()
    } else {
        since.clone()
    }
}

/// The lesser of two frontiers: their meet, which is one of the two.
fn lesser(m: &Frontier, cap: &Frontier) -> (next: Frontier)
    ensures
        next@ == m@ || next@ == cap@,
        m@.len() == 0 ==> next@ == cap@,
        frontier_le(next@, m@),
        frontier_le(next@, cap@),
{
    cap.check_antichain();
    m.check_antichain();
    let next = m.meet(cap);
    proof {
        lemma_meet(m@, cap@);
        lemma_meet_is_greatest_lower_bound(m@, cap@, m@);
        if m@.len() == 1 && cap@.len() == 1 {
            assert(m@ =~= seq![m@[0]]);
            assert(cap@ =~= seq![cap@[0]]);
        }
    }
    next
}

impl State {
    /// The least of the capabilities that readers hold, if any reader holds one.
    fn least_capability(&self) -> (least: Option<Frontier>)
        requires
            self.registered_once(),
        ensures
            forall|c: Seq<u64>| self@.capabilities().contains(c) ==> is_antichain(c),
            match least {
                Some(m) => self@.capabilities().contains(m@) && lower_bound(
                    m@,
                    self@.capabilities(),
                ),
                None => forall|c: Seq<u64>| !self@.capabilities().contains(c),
            },
    {
        let mut m = Frontier::new();
        let n1 = self.leased_readers.len();
        let n2 = self.critical_readers.len();
        proof {
            self.leased_readers.lemma_entries();
            self.critical_readers.lemma_entries();
        }
        let mut i: usize = 0;
        while i < n1
            invariant
                self.registered_once(),
                i <= n1,
                n1 == self.leased_readers.keys().len(),
                i == 0 ==> m@ == Seq::<u64>::empty(),
                forall|j: int|
                    0 <= j < i ==> is_antichain(self.leased_readers.values()[j].since@)
                        && frontier_le(m@, #[trigger] self.leased_readers.values()[j].since@),
                i > 0 ==> exists|j: int|
                    0 <= j < i && m@ == #[trigger] self.leased_readers.values()[j].since@,
            decreases n1 - i,
        {
            let cap = &self.leased_readers.value_at(i).since;
            cap.check_antichain();
            let next = lesser(&m, cap);
            proof {
                assert forall|j: int| 0 <= j < i + 1 implies is_antichain(
                    self.leased_readers.values()[j].since@,
                ) && frontier_le(next@, #[trigger] self.leased_readers.values()[j].since@) by {
                    if j < i {
                        lemma_frontier_le_preorder(
                            next@,
                            m@,
                            self.leased_readers.values()[j].since@,
                        );
                    }
                }
                if next@ == cap@ {
                    assert(next@ == self.leased_readers.values()[i as int].since@);
                }
            }
            m = next;
            i += 1;
        }
        let mut k: usize = 0;
        while k < n2
            invariant
                self.registered_once(),
                k <= n2,
                n1 == self.leased_readers.keys().len(),
                n2 == self.critical_readers.keys().len(),
                n1 == 0 && k == 0 ==> m@ == Seq::<u64>::empty(),
                forall|j: int|
                    0 <= j < n1 ==> is_antichain(self.leased_readers.values()[j].since@)
                        && frontier_le(m@, #[trigger] self.leased_readers.values()[j].since@),
                forall|j: int|
                    0 <= j < k ==> is_antichain(self.critical_readers.values()[j].since@)
                        && frontier_le(m@, #[trigger] self.critical_readers.values()[j].since@),
                n1 > 0 || k > 0 ==> (exists|j: int|
                    0 <= j < n1 && m@ == #[trigger] self.leased_readers.values()[j].since@) || (
                exists|j: int|
                    0 <= j < k && m@ == #[trigger] self.critical_readers.values()[j].since@),
            decreases n2 - k,
        {
            let cap = &self.critical_readers.value_at(k).since;
            cap.check_antichain();
            let next = lesser(&m, cap);
            proof {
                assert forall|j: int| 0 <= j < n1 implies is_antichain(
                    self.leased_readers.values()[j].since@,
                ) && frontier_le(next@, #[trigger] self.leased_readers.values()[j].since@) by {
                    lemma_frontier_le_preorder(next@, m@, self.leased_readers.values()[j].since@);
                }
                assert forall|j: int| 0 <= j < k + 1 implies is_antichain(
                    self.critical_readers.values()[j].since@,
                ) && frontier_le(next@, #[trigger] self.critical_readers.values()[j].since@) by {
                    if j < k {
                        lemma_frontier_le_preorder(
                            next@,
                            m@,
                            self.critical_readers.values()[j].since@,
                        );
                    }
                }
                if next@ == cap@ {
                    assert(next@ == self.critical_readers.values()[k as int].since@);
                }
            }
            m = next;
            k += 1;
        }
        proof {
            let caps = self@.capabilities();
            assert forall|c: Seq<u64>| #[trigger] caps.contains(c) implies is_antichain(c)
                && frontier_le(m@, c) && (n1 > 0 || n2 > 0) by {
                if exists|id: Seq<u8>| #[trigger]
                    self@.leased_readers.contains_key(id) && self@.leased_readers[id].since == c {
                    let id = choose|id: Seq<u8>| #[trigger]
                        self@.leased_readers.contains_key(id) && self@.leased_readers[id].since
                            == c;
                    assert(self.leased_readers.map().contains_key(id));
                    let j = self.leased_readers.keys().index_of(id);
                    assert(self.leased_readers.map()[self.leased_readers.keys()[j]]
                        == self.leased_readers.values()[j]);
                    assert(frontier_le(m@, self.leased_readers.values()[j].since@));
                } else {
                    let id = choose|id: Seq<u8>| #[trigger]
                        self@.critical_readers.contains_key(id)
                            && self@.critical_readers[id].since == c;
                    assert(self.critical_readers.map().contains_key(id));
                    let j = self.critical_readers.keys().index_of(id);
                    assert(self.critical_readers.map()[self.critical_readers.keys()[j]]
                        == self.critical_readers.values()[j]);
                    assert(frontier_le(m@, self.critical_readers.values()[j].since@));
                }
            }
            if n1 > 0 || n2 > 0 {
                if exists|j: int|
                    0 <= j < n1 && m@ == #[trigger] self.leased_readers.values()[j].since@ {
                    let j = choose|j: int|
                        0 <= j < n1 && m@ == #[trigger] self.leased_readers.values()[j].since@;
                    let id = self.leased_readers.keys()[j];
                    assert(self.leased_readers.map().contains_key(id));
                    assert(self@.leased_readers.contains_key(id) && self@.leased_readers[id].since
                        == m@);
                } else {
                    let j = choose|j: int|
                        0 <= j < n2 && m@ == #[trigger] self.critical_readers.values()[j].since@;
                    let id = self.critical_readers.keys()[j];
                    assert(self.critical_readers.map().contains_key(id));
                    assert(self@.critical_readers.contains_key(id)
                        && self@.critical_readers[id].since == m@);
                }
            }
        }
        if n1 == 0 && n2 == 0 {
            None
        } else {
            assert(self@.capabilities().contains(m@));
            assert(lower_bound(m@, self@.capabilities()));
            Some(m)
        }
    }

    /// Puts the since where the capabilities of the readers put it.
    fn settle_since(&mut self)
        requires
            old(self).registered_once(),
        ensures
            final(self).registered_once(),
            final(self)@ == old(self)@.with_held_since(),
    {
        self.since.check_antichain();
        match self.least_capability() {
            Some(m) => {
                proof {
                    lemma_held_since_is(self@.capabilities(), self@.since, m@);
                }
                self.since = m;
            },
            None => {},
        }
    }

    /// Registers a leased reader, or refreshes the lease of one that is registered,
    /// and hands out the upper of the shard and what is now recorded of the reader.
    /// A new reader holds the since of the shard; a registered one keeps its own.
    pub fn register_leased_reader(
        &mut self,
        reader_id: &LeasedReaderId,
        lease_duration: u64,
        now: u64,
    ) -> (r: (Frontier, LeasedReaderState))
        requires
            old(self).wf(),
        ensures
            final(self).wf(),
            final(self)@ == old(self)@.register_leased_reader(reader_id@, lease_duration, now),
            r.0@ == old(self)@.upper,
            r.1@ == final(self)@.leased_readers[reader_id@],
    {
        let since = match self.leased_readers.get(&reader_id.0) {
            Some(r) => r.since.clone(),
            None => self.since.clone(),
        };
        let reader = LeasedReaderState {
            since,
            lease_deadline: lease_deadline(now, lease_duration),
            last_heartbeat: now,
        };
        let copy = reader.clone();
        self.leased_readers.insert(reader_id.0, reader);
        proof {
            lemma_register_leased_reader(old(self)@, reader_id@, lease_duration, now);
            assert(self@.leased_readers =~= old(self)@.register_leased_reader(
                reader_id@,
                lease_duration,
                now,
            ).leased_readers);
        }
        (self.upper.clone(), copy)
    }

    /// Registers a critical reader and hands out what is recorded of it. A new
    /// reader holds the since of the shard and the default token of eight zero
    /// bytes. Registering again changes nothing.
    pub fn register_critical_reader(&mut self, reader_id: &CriticalReaderId) -> (r:
        CriticalReaderState)
        requires
            old(self).wf(),
        ensures
            final(self).wf(),
            final(self)@ == old(self)@.register_critical_reader(reader_id@),
            r@ == final(self)@.critical_readers[reader_id@],
    {
        proof {
            lemma_register_critical_reader(self@, reader_id@);
        }
        match self.critical_readers.get(&reader_id.0) {
            Some(r) => r.clone(),
            None => {
                let reader = CriticalReaderState { since: self.since.clone(), opaque: [0u8; 8] };
                let copy = reader.clone();
                assert(reader.opaque@ =~= seq![0u8, 0u8, 0u8, 0u8, 0u8, 0u8, 0u8, 0u8]);
                self.critical_readers.insert(reader_id.0, reader);
                proof {
                    assert(self@.critical_readers =~= old(self)@.register_critical_reader(
                        reader_id@,
                    ).critical_readers);
                }
                copy
            },
        }
    }

    /// Records a sign of life of a leased reader, and says whether it is registered.
    pub fn heartbeat_leased_reader(&mut self, reader_id: &LeasedReaderId, now: u64) -> (registered:
        bool)
        requires
            old(self).wf(),
        ensures
            final(self).wf(),
            final(self)@ == old(self)@.heartbeat_leased_reader(reader_id@, now),
            registered == old(self)@.leased_readers.contains_key(reader_id@),
    {
        proof {
            lemma_heartbeat_leased_reader(self@, reader_id@, now);
        }
        match self.leased_readers.get(&reader_id.0) {
            Some(r) => {
                let lease = heartbeat_lease(
                    WriterState {
                        lease_deadline: r.lease_deadline,
                        last_heartbeat: r.last_heartbeat,
                    },
                    now,
                );
                let after = LeasedReaderState {
                    since: r.since.clone(),
                    lease_deadline: lease.lease_deadline,
                    last_heartbeat: lease.last_heartbeat,
                };
                self.leased_readers.insert(reader_id.0, after);
                proof {
                    assert(self@.leased_readers =~= old(self)@.heartbeat_leased_reader(
                        reader_id@,
                        now,
                    ).leased_readers);
                }
                true
            },
            None => false,
        }
    }

    /// Moves the capability of a leased reader to `new_since`, unless that is not
    /// at or beyond it, and puts the since of the shard at the meet of all
    /// capabilities. Hands out the capability as it is now, or nothing where no
    /// such reader is registered.
    pub fn downgrade_since(&mut self, reader_id: &LeasedReaderId, new_since: &Frontier) -> (r:
        Option<Frontier>)
        requires
            old(self).wf(),
        ensures
            final(self).wf(),
            final(self)@ == old(self)@.downgrade_since(reader_id@, new_since@),
            match r {
                Some(since) => old(self)@.leased_readers.contains_key(reader_id@) && since@
                    == downgraded(old(self)@.leased_readers[reader_id@].since, new_since@),
                None => !old(self)@.leased_readers.contains_key(reader_id@),
            },
    {
        new_since.check_antichain();
        proof {
            lemma_downgrade_since(self@, reader_id@, new_since@);
        }
        match self.leased_readers.get(&reader_id.0) {
            Some(r) => {
                let moved = downgrade(&r.since, new_since);
                let after = LeasedReaderState {
                    since: moved.clone(),
                    lease_deadline: r.lease_deadline,
                    last_heartbeat: r.last_heartbeat,
                };
                self.leased_readers.insert(reader_id.0, after);
                proof {
                    let r0 = old(self)@.leased_readers[reader_id@];
                    assert(self@.leased_readers =~= old(self)@.leased_readers.insert(
                        reader_id@,
                        LeasedReaderView { since: downgraded(r0.since, new_since@), ..r0 },
                    ));
                }
                self.settle_since();
                Some(moved)
            },
            None => None,
        }
    }

    /// Swaps the token of a critical reader and moves its capability, if the reader
    /// holds the expected token, and puts the since of the shard at the meet of all
    /// capabilities.
    pub fn compare_and_downgrade_since(
        &mut self,
        reader_id: &CriticalReaderId,
        expected_opaque: &[u8; 8],
        new_opaque: &[u8; 8],
        new_since: &Frontier,
    ) -> (r: SinceDowngrade)
        requires
            old(self).wf(),
        ensures
            final(self).wf(),
            final(self)@ == old(self)@.compare_and_downgrade_since(
                reader_id@,
                expected_opaque@,
                new_opaque@,
                new_since@,
            ),
            match r {
                SinceDowngrade::Downgraded(since) => old(self)@.holds_opaque(
                    reader_id@,
                    expected_opaque@,
                ) && since@ == downgraded(
                    old(self)@.critical_readers[reader_id@].since,
                    new_since@,
                ),
                SinceDowngrade::OpaqueMismatch(actual) => old(self)@.critical_readers.contains_key(
                    reader_id@,
                ) && actual@ == old(self)@.critical_readers[reader_id@].opaque && actual@
                    != expected_opaque@,
                SinceDowngrade::NotRegistered => !old(self)@.critical_readers.contains_key(
                    reader_id@,
                ),
            },
    {
        new_since.check_antichain();
        proof {
            lemma_compare_and_downgrade_since(
                self@,
                reader_id@,
                expected_opaque@,
                new_opaque@,
                new_since@,
            );
        }
        match self.critical_readers.get(&reader_id.0) {
            Some(r) => {
                if same_opaque(&r.opaque, expected_opaque) {
                    let moved = downgrade(&r.since, new_since);
                    let after = CriticalReaderState { since: moved.clone(), opaque: *new_opaque };
                    self.critical_readers.insert(reader_id.0, after);
                    proof {
                        let r0 = old(self)@.critical_readers[reader_id@];
                        assert(self@.critical_readers =~= old(self)@.critical_readers.insert(
                            reader_id@,
                            CriticalReaderView {
                                since: downgraded(r0.since, new_since@),
                                opaque: new_opaque@,
                            },
                        ));
                    }
                    self.settle_since();
                    SinceDowngrade::Downgraded(moved)
                } else {
                    SinceDowngrade::OpaqueMismatch(r.opaque)
                }
            },
            None => SinceDowngrade::NotRegistered,
        }
    }

    /// Removes a leased reader, puts the since of the shard at the meet of the
    /// capabilities that are left, and says whether the reader was registered.
    pub fn expire_leased_reader(&mut self, reader_id: &LeasedReaderId) -> (existed: bool)
        requires
            old(self).wf(),
        ensures
            final(self).wf(),
            final(self)@ == old(self)@.expire_leased_reader(reader_id@),
            existed == old(self)@.leased_readers.contains_key(reader_id@),
    {
        proof {
            lemma_expire_leased_reader(self@, reader_id@);
        }
        let existed = self.leased_readers.remove(&reader_id.0).is_some();
        proof {
            assert(self@.leased_readers =~= old(self)@.leased_readers.remove(reader_id@));
        }
        self.settle_since();
        existed
    }

    /// Removes a critical reader, puts the since of the shard at the meet of the
    /// capabilities that are left, and says whether the reader was registered.
    pub fn expire_critical_reader(&mut self, reader_id: &CriticalReaderId) -> (existed: bool)
        requires
            old(self).wf(),
        ensures
            final(self).wf(),
            final(self)@ == old(self)@.expire_critical_reader(reader_id@),
            existed == old(self)@.critical_readers.contains_key(reader_id@),
    {
        proof {
            lemma_expire_critical_reader(self@, reader_id@);
        }
        let existed = self.critical_readers.remove(&reader_id.0).is_some();
        proof {
            assert(self@.critical_readers =~= old(self)@.critical_readers.remove(reader_id@));
        }
        self.settle_since();
        existed
    }
}


/// How an append fared.
#[derive(Debug, PartialEq, Eq)]
pub enum CompareAndAppendRes {
    /// The batch is in the trace and the upper of the shard has moved.
    Applied,
    /// The upper of the shard is not the expected one, but this one. Nothing changed.
    UpperMismatch(Frontier),
    /// The append is a misuse. Nothing changed.
    InvalidUsage(InvalidUsage),
}

/// The misuse that a verdict on an append stands for, if it stands for one.
pub open spec fn append_refusal(
    verdict: AppendVerdict,
    batch: BatchView,
    expected_lower: Seq<u64>,
    new_upper: Seq<u64>,
) -> Option<InvalidUsageView> {
    match verdict {
        AppendVerdict::InvalidBounds => Some(
            InvalidUsageView::InvalidBounds { lower: expected_lower, upper: new_upper },
        ),
        AppendVerdict::InvalidEmptyTimeInterval => Some(
            InvalidUsageView::InvalidEmptyTimeInterval {
                lower: expected_lower,
                upper: new_upper,
                keys: batch.parts,
            },
        ),
        AppendVerdict::InvalidBatchBounds => Some(
            InvalidUsageView::InvalidBatchBounds {
                batch_lower: batch.lower,
                batch_upper: batch.upper,
                append_lower: expected_lower,
                append_upper: new_upper,
            },
        ),
        _ => None,
    }
}

/// Puts `output` in the place of the `n` batches from index `at` on.
fn splice(trace: &mut Vec<HollowBatch>, at: usize, n: usize, output: HollowBatch)
    requires
        at + n <= old(trace)@.len(),
    ensures
        final(trace)@ == old(trace)@.subrange(0, at as int).push(output) + old(trace)@.subrange(
            at + n,
            old(trace)@.len() as int,
        ),
{
    let mut k: usize = 0;
    while k < n
        invariant
            k <= n,
            at + n <= old(trace)@.len(),
            trace@ == old(trace)@.subrange(0, at as int) + old(trace)@.subrange(
                at + k,
                old(trace)@.len() as int,
            ),
        decreases n - k,
    {
        trace.remove(at);
        proof {
            assert(trace@ =~= old(trace)@.subrange(0, at as int) + old(trace)@.subrange(
                at + k + 1,
                old(trace)@.len() as int,
            ));
        }
        k += 1;
    }
    trace.insert(at, output);
    proof {
        assert(trace@ =~= old(trace)@.subrange(0, at as int).push(output) + old(trace)@.subrange(
            at + n,
            old(trace)@.len() as int,
        ));
    }
}

impl State {
    /// The mathematical value of a run of batches.
    pub open spec fn batches_view(batches: Seq<HollowBatch>) -> Seq<BatchView> {
        batches.map_values(|b: HollowBatch| b@)
    }

    /// Appends a batch as `[expected_lower, new_upper)`, if the upper of the shard
    /// is `expected_lower`.
    ///
    /// An append whose upper is before its lower, one that covers no time but
    /// brings updates, and one whose bounds are not those of the batch are
    /// refused as misuse, in this order. An append against another upper than
    /// the shard's is answered with the upper of the shard. Else the batch goes
    /// to the end of the trace, unless it covers no time, the upper of the shard
    /// moves to `new_upper`, and the writer has given a sign of life.
    pub fn compare_and_append(
        &mut self,
        writer_id: &WriterId,
        batch: HollowBatch,
        expected_lower: &Frontier,
        new_upper: &Frontier,
        now: u64,
    ) -> (r: CompareAndAppendRes)
        requires
            old(self).wf(),
        ensures
            final(self).wf(),
            final(self)@ == old(self)@.compare_and_append(
                writer_id@,
                batch@,
                expected_lower@,
                new_upper@,
                now,
            ),
            match r {
                CompareAndAppendRes::Applied => old(self)@.append_verdict(
                    batch@,
                    expected_lower@,
                    new_upper@,
                ) is Applied,
                CompareAndAppendRes::UpperMismatch(actual) => old(self)@.append_verdict(
                    batch@,
                    expected_lower@,
                    new_upper@,
                ) is UpperMismatch && actual@ == old(self)@.upper,
                CompareAndAppendRes::InvalidUsage(e) => Some(e@) == append_refusal(
                    old(self)@.append_verdict(batch@, expected_lower@, new_upper@),
                    batch@,
                    expected_lower@,
                    new_upper@,
                ),
            },
    {
        expected_lower.check_antichain();
        new_upper.check_antichain();
        proof {
            lemma_compare_and_append(
                self@,
                writer_id@,
                batch@,
                expected_lower@,
                new_upper@,
                now,
            );
        }
        if new_upper.less_than(expected_lower) {
            return CompareAndAppendRes::InvalidUsage(
                InvalidUsage::InvalidBounds {
                    lower: expected_lower.clone(),
                    upper: new_upper.clone(),
                },
            );
        }
        let empty_interval = expected_lower.eq(new_upper);
        if empty_interval && batch.len > 0 {
            return CompareAndAppendRes::InvalidUsage(
                InvalidUsage::InvalidEmptyTimeInterval {
                    lower: expected_lower.clone(),
                    upper: new_upper.clone(),
                    keys: batch.parts,
                },
            );
        }
        if !batch.lower.eq(expected_lower) || !batch.upper.eq(new_upper) {
            return CompareAndAppendRes::InvalidUsage(
                InvalidUsage::InvalidBatchBounds {
                    batch_lower: batch.lower,
                    batch_upper: batch.upper,
                    append_lower: expected_lower.clone(),
                    append_upper: new_upper.clone(),
                },
            );
        }
        if !self.upper.eq(expected_lower) {
            return CompareAndAppendRes::UpperMismatch(self.upper.clone());
        }
        if !empty_interval {
            self.trace.push(batch);
        }
        self.upper = new_upper.clone();
        match self.writers.get(&writer_id.0) {
            Some(w) => {
                let after = heartbeat_lease(*w, now);
                self.writers.insert(writer_id.0, after);
            },
            None => {},
        }
        proof {
            assert(self@.trace =~= old(self)@.compare_and_append(
                writer_id@,
                batch@,
                expected_lower@,
                new_upper@,
                now,
            ).trace);
        }
        CompareAndAppendRes::Applied
    }

    /// The index at which the batches `inputs` stand in the trace one after the
    /// other, if they do.
    fn find_run(&self, inputs: &Vec<HollowBatch>) -> (found: Option<usize>)
        requires
            inputs@.len() > 0,
        ensures
            match found {
                Some(at) => run_at(self@.trace, State::batches_view(inputs@), at as int),
                None => forall|at: int| !run_at(self@.trace, State::batches_view(inputs@), at),
            },
    {
        let n = inputs.len();
        let len = self.trace.len();
        let ghost wanted = State::batches_view(inputs@);
        if n > len {
            return None;
        }
        let mut at: usize = 0;
        while at <= len - n
            invariant
                n == inputs@.len(),
                n > 0,
                len == self.trace@.len(),
                n <= len,
                at <= len - n + 1,
                wanted == State::batches_view(inputs@),
                forall|a: int| 0 <= a < at ==> !run_at(self@.trace, wanted, a),
            decreases len - n + 1 - at,
        {
            let mut k: usize = 0;
            let mut all = true;
            while k < n
                invariant
                    n == inputs@.len(),
                    len == self.trace@.len(),
                    at + n <= len,
                    k <= n,
                    wanted == State::batches_view(inputs@),
                    all ==> forall|j: int| 0 <= j < k ==> self@.trace[at + j] == wanted[j],
                    !all ==> !run_at(self@.trace, wanted, at as int),
                decreases n - k,
            {
                if all && !self.trace[at + k].same(&inputs[k]) {
                    all = false;
                    proof {
                        assert(self@.trace[at + k] == self.trace@[at + k]@);
                        assert(wanted[k as int] == inputs@[k as int]@);
                        if run_at(self@.trace, wanted, at as int) {
                            assert(self@.trace.subrange(at as int, at + n)[k as int]
                                == self@.trace[at + k]);
                        }
                    }
                }
                k += 1;
            }
            if all {
                proof {
                    assert(self@.trace.subrange(at as int, at + n) =~= wanted);
                }
                return Some(at);
            }
            at += 1;
        }
        None
    }

    /// Puts the result of a compaction in the place of its inputs, and says
    /// whether it did.
    ///
    /// It does so if the inputs stand in the trace one after the other, and the
    /// output covers what they cover together. A compaction that lost the race
    /// against another one finds its inputs gone, and changes nothing.
    pub fn apply_merge_res(&mut self, inputs: &Vec<HollowBatch>, output: HollowBatch) -> (applied:
        bool)
        requires
            old(self).wf(),
        ensures
            final(self).wf(),
            applied == old(self)@.merge_applies(State::batches_view(inputs@), output@),
            final(self)@ == (TransitionView::ApplyMergeRes {
                inputs: State::batches_view(inputs@),
                output: output@,
            }).apply(old(self)@),
    {
        match self.merge_position(inputs, &output) {
            Some(at) => {
                proof {
                    lemma_apply_merge_res(
                        self@,
                        State::batches_view(inputs@),
                        output@,
                        at as int,
                    );
                    lemma_merge_applies_once(
                        self@,
                        State::batches_view(inputs@),
                        output@,
                        at as int,
                    );
                }
                splice(&mut self.trace, at, inputs.len(), output);
                proof {
                    assert(self@.trace =~= old(self)@.apply_merge_res(
                        State::batches_view(inputs@),
                        output@,
                        at as int,
                    ).trace);
                }
                true
            },
            None => false,
        }
    }

    /// The index at which the result of a compaction can take the place of its
    /// inputs, if there is one.
    fn merge_position(&self, inputs: &Vec<HollowBatch>, output: &HollowBatch) -> (found: Option<
        usize,
    >)
        ensures
            match found {
                Some(at) => self@.merge_applies_at(
                    State::batches_view(inputs@),
                    output@,
                    at as int,
                ),
                None => !self@.merge_applies(State::batches_view(inputs@), output@),
            },
    {
        let n = inputs.len();
        if n == 0 {
            return None;
        }
        match self.find_run(inputs) {
            Some(at) => {
                proof {
                    assert(State::batches_view(inputs@)[0] == inputs@[0]@);
                    assert(State::batches_view(inputs@).last() == inputs@[n - 1]@);
                }
                if output.lower.eq(&inputs[0].lower) && output.upper.eq(&inputs[n - 1].upper) {
                    Some(at)
                } else {
                    None
                }
            },
            None => None,
        }
    }

    /// Moves the state on to its next version.
    pub fn next_version(&mut self)
        requires
            old(self).wf(),
            old(self)@.seqno < u64::MAX,
        ensures
            final(self).wf(),
            final(self)@ == (StateView { seqno: (old(self)@.seqno + 1) as u64, ..old(self)@ }),
    {
        self.seqno = self.seqno + 1;
        proof {
            assert(self@.capabilities() =~= old(self)@.capabilities());
        }
    }
}


/// Whether an identifier is among those of a list.
pub open spec fn lists_writer(ids: Seq<WriterId>, id: Seq<u8>) -> bool {
    exists|i: int| 0 <= i < ids.len() && (#[trigger] ids[i])@ == id
}

/// Whether an identifier is among those of a list.
pub open spec fn lists_reader(ids: Seq<LeasedReaderId>, id: Seq<u8>) -> bool {
    exists|i: int| 0 <= i < ids.len() && (#[trigger] ids[i])@ == id
}

impl State {
    /// The writers whose lease has run out at `now`: those with a deadline
    /// before `now`. Any participant may remove them.
    pub fn expired_writers(&self, now: u64) -> (ids: Vec<WriterId>)
        requires
            self.wf(),
        ensures
            forall|id: Seq<u8>|
                lists_writer(ids@, id) <==> (#[trigger] self@.writers.contains_key(id)
                    && self@.writers[id].lease_deadline < now),
    {
        let mut ids: Vec<WriterId> = Vec::new();
        let n = self.writers.len();
        proof {
            self.writers.lemma_entries();
        }
        let mut i: usize = 0;
        while i < n
            invariant
                self.wf(),
                n == self.writers.keys().len(),
                i <= n,
                forall|id: Seq<u8>|
                    lists_writer(ids@, id) <==> (exists|j: int|
                        0 <= j < i && #[trigger] self.writers.keys()[j] == id
                            && self.writers.values()[j].lease_deadline < now),
            decreases n - i,
        {
            let key = self.writers.key_at(i);
            let due = self.writers.value_at(i).lease_deadline < now;
            let ghost before = ids@;
            if due {
                ids.push(WriterId(key));
            }
            proof {
                assert forall|id: Seq<u8>| lists_writer(ids@, id) <==> (exists|j: int|
                    0 <= j < i + 1 && #[trigger] self.writers.keys()[j] == id
                        && self.writers.values()[j].lease_deadline < now) by {
                    if lists_writer(ids@, id) {
                        let k = choose|k: int| 0 <= k < ids@.len() && (#[trigger] ids@[k])@ == id;
                        if k < before.len() {
                            assert(before[k]@ == id);
                            assert(lists_writer(before, id));
                            let j = choose|j: int|
                                0 <= j < i && #[trigger] self.writers.keys()[j] == id
                                    && self.writers.values()[j].lease_deadline < now;
                            assert(0 <= j < i + 1 && self.writers.keys()[j] == id);
                        } else {
                            assert(self.writers.keys()[i as int] == id);
                        }
                    }
                    if exists|j: int|
                        0 <= j < i + 1 && #[trigger] self.writers.keys()[j] == id
                            && self.writers.values()[j].lease_deadline < now {
                        let j = choose|j: int|
                            0 <= j < i + 1 && #[trigger] self.writers.keys()[j] == id
                                && self.writers.values()[j].lease_deadline < now;
                        if j < i {
                            assert(lists_writer(before, id));
                            let k = choose|k: int|
                                0 <= k < before.len() && (#[trigger] before[k])@ == id;
                            assert(ids@[k]@ == id);
                        } else {
                            assert(ids@[ids@.len() - 1]@ == id);
                        }
                    }
                }
            }
            i += 1;
        }
        proof {
            assert forall|id: Seq<u8>| lists_writer(ids@, id) <==> (
            #[trigger] self@.writers.contains_key(id) && self@.writers[id].lease_deadline
                < now) by {
                if lists_writer(ids@, id) {
                    let j = choose|j: int|
                        0 <= j < n && #[trigger] self.writers.keys()[j] == id
                            && self.writers.values()[j].lease_deadline < now;
                    assert(self.writers.map().contains_key(self.writers.keys()[j]));
                }
                if self@.writers.contains_key(id) && self@.writers[id].lease_deadline < now {
                    let j = self.writers.keys().index_of(id);
                    assert(self.writers.keys()[j] == id);
                    assert(self.writers.map()[self.writers.keys()[j]] == self.writers.values()[j]);
                }
            }
        }
        ids
    }

    /// The leased readers whose lease has run out at `now`: those with a deadline
    /// before `now`. Any participant may remove them.
    pub fn expired_leased_readers(&self, now: u64) -> (ids: Vec<LeasedReaderId>)
        requires
            self.wf(),
        ensures
            forall|id: Seq<u8>|
                lists_reader(ids@, id) <==> (#[trigger] self@.leased_readers.contains_key(id)
                    && self@.leased_readers[id].lease_deadline < now),
    {
        let mut ids: Vec<LeasedReaderId> = Vec::new();
        let n = self.leased_readers.len();
        proof {
            self.leased_readers.lemma_entries();
        }
        let mut i: usize = 0;
        while i < n
            invariant
                self.wf(),
                n == self.leased_readers.keys().len(),
                i <= n,
                forall|id: Seq<u8>|
                    lists_reader(ids@, id) <==> (exists|j: int|
                        0 <= j < i && #[trigger] self.leased_readers.keys()[j] == id
                            && self.leased_readers.values()[j].lease_deadline < now),
            decreases n - i,
        {
            let key = self.leased_readers.key_at(i);
            let due = self.leased_readers.value_at(i).lease_deadline < now;
            let ghost before = ids@;
            if due {
                ids.push(LeasedReaderId(key));
            }
            proof {
                assert forall|id: Seq<u8>| lists_reader(ids@, id) <==> (exists|j: int|
                    0 <= j < i + 1 && #[trigger] self.leased_readers.keys()[j] == id
                        && self.leased_readers.values()[j].lease_deadline < now) by {
                    if lists_reader(ids@, id) {
                        let k = choose|k: int| 0 <= k < ids@.len() && (#[trigger] ids@[k])@ == id;
                        if k < before.len() {
                            assert(before[k]@ == id);
                            assert(lists_reader(before, id));
                            let j = choose|j: int|
                                0 <= j < i && #[trigger] self.leased_readers.keys()[j] == id
                                    && self.leased_readers.values()[j].lease_deadline < now;
                            assert(0 <= j < i + 1 && self.leased_readers.keys()[j] == id);
                        } else {
                            assert(self.leased_readers.keys()[i as int] == id);
                        }
                    }
                    if exists|j: int|
                        0 <= j < i + 1 && #[trigger] self.leased_readers.keys()[j] == id
                            && self.leased_readers.values()[j].lease_deadline < now {
                        let j = choose|j: int|
                            0 <= j < i + 1 && #[trigger] self.leased_readers.keys()[j] == id
                                && self.leased_readers.values()[j].lease_deadline < now;
                        if j < i {
                            assert(lists_reader(before, id));
                            let k = choose|k: int|
                                0 <= k < before.len() && (#[trigger] before[k])@ == id;
                            assert(ids@[k]@ == id);
                        } else {
                            assert(ids@[ids@.len() - 1]@ == id);
                        }
                    }
                }
            }
            i += 1;
        }
        proof {
            assert forall|id: Seq<u8>| lists_reader(ids@, id) <==> (
            #[trigger] self@.leased_readers.contains_key(id)
                && self@.leased_readers[id].lease_deadline < now) by {
                if lists_reader(ids@, id) {
                    let j = choose|j: int|
                        0 <= j < n && #[trigger] self.leased_readers.keys()[j] == id
                            && self.leased_readers.values()[j].lease_deadline < now;
                    assert(self.leased_readers.map().contains_key(self.leased_readers.keys()[j]));
                }
                if self@.leased_readers.contains_key(id) && self@.leased_readers[id].lease_deadline
                    < now {
                    assert(self.leased_readers.map().contains_key(id));
                    let j = self.leased_readers.keys().index_of(id);
                    assert(self.leased_readers.keys()[j] == id);
                    assert(self.leased_readers.map()[self.leased_readers.keys()[j]]
                        == self.leased_readers.values()[j]);
                }
            }
        }
        ids
    }
}


/// The registrations that a list of entries makes, a later entry taking the
/// place of an earlier one for the same identifier.
pub open spec fn entries_map<V>(ids: Seq<Seq<u8>>, values: Seq<V>) -> Map<Seq<u8>, V>
    recommends
        ids.len() == values.len(),
    decreases ids.len(),
{
    if ids.len() == 0 || values.len() == 0 {
        Map::empty()
    } else {
        entries_map(ids.drop_last(), values.drop_last()).insert(ids.last(), values.last())
    }
}

/// No identifier occurs twice in the list.
pub open spec fn distinct_ids(ids: Seq<Seq<u8>>) -> bool {
    forall|a: int, b: int| 0 <= a < b < ids.len() ==> ids[a] != ids[b]
}

/// A list in which no identifier occurs twice registers each of its entries,
/// and nothing else.
pub proof fn lemma_entries_map<V>(ids: Seq<Seq<u8>>, values: Seq<V>)
    requires
        ids.len() == values.len(),
        distinct_ids(ids),
    ensures
        forall|k: Seq<u8>| #[trigger] entries_map(ids, values).contains_key(k) <==> ids.contains(k),
        forall|a: int|
            0 <= a < ids.len() ==> entries_map(ids, values)[#[trigger] ids[a]] == values[a],
    decreases ids.len(),
{
    if ids.len() > 0 {
        let front = ids.drop_last();
        let n = ids.len() - 1;
        assert forall|a: int, b: int| 0 <= a < b < front.len() implies front[a] != front[b] by {
            assert(front[a] == ids[a] && front[b] == ids[b]);
        }
        lemma_entries_map(front, values.drop_last());
        let rest = entries_map(front, values.drop_last());
        assert(entries_map(ids, values) == rest.insert(ids.last(), values.last()));
        assert(ids[n] == ids.last());
        assert forall|k: Seq<u8>| #[trigger]
            entries_map(ids, values).contains_key(k) <==> ids.contains(k) by {
            if ids.contains(k) {
                let a = choose|a: int| 0 <= a < ids.len() && ids[a] == k;
                if a < n {
                    assert(front[a] == k);
                    assert(front.contains(k));
                    assert(rest.contains_key(k));
                }
                assert(entries_map(ids, values).contains_key(k));
            }
            if entries_map(ids, values).contains_key(k) {
                if k != ids.last() {
                    assert(rest.contains_key(k));
                    assert(front.contains(k));
                    let a = choose|a: int| 0 <= a < front.len() && front[a] == k;
                    assert(ids[a] == k);
                }
                assert(ids.contains(k));
            }
        }
        assert forall|a: int| 0 <= a < ids.len() implies entries_map(ids, values)[
        #[trigger] ids[a]] == values[a] by {
            if a < n {
                assert(front[a] == ids[a]);
                assert(ids[a] != ids[n]);
                assert(values.drop_last()[a] == values[a]);
            }
        }
    }
}

/// The identifiers of a list of writers.
pub open spec fn writer_ids(entries: Seq<(WriterId, WriterState)>) -> Seq<Seq<u8>> {
    entries.map_values(|e: (WriterId, WriterState)| e.0@)
}

/// The identifiers of a list of leased readers.
pub open spec fn leased_reader_ids(entries: Seq<(LeasedReaderId, LeasedReaderState)>) -> Seq<
    Seq<u8>,
> {
    entries.map_values(|e: (LeasedReaderId, LeasedReaderState)| e.0@)
}

/// The identifiers of a list of critical readers.
pub open spec fn critical_reader_ids(entries: Seq<(CriticalReaderId, CriticalReaderState)>) -> Seq<
    Seq<u8>,
> {
    entries.map_values(|e: (CriticalReaderId, CriticalReaderState)| e.0@)
}

/// The parts of a state, as they come out of durable storage.
#[derive(Debug, PartialEq, Eq)]
pub struct StateParts {
    pub shard_id: ShardId,
    pub seqno: u64,
    pub codecs: Codecs,
    pub since: Frontier,
    pub upper: Frontier,
    pub trace: Vec<HollowBatch>,
    pub leased_readers: Vec<(LeasedReaderId, LeasedReaderState)>,
    pub critical_readers: Vec<(CriticalReaderId, CriticalReaderState)>,
    pub writers: Vec<(WriterId, WriterState)>,
}

impl StateParts {
    /// No participant is registered twice.
    pub open spec fn registered_once(&self) -> bool {
        &&& distinct_ids(writer_ids(self.writers@))
        &&& distinct_ids(leased_reader_ids(self.leased_readers@))
        &&& distinct_ids(critical_reader_ids(self.critical_readers@))
    }
}

impl View for StateParts {
    type V = StateView;

    open spec fn view(&self) -> StateView {
        StateView {
            shard_id: self.shard_id@,
            seqno: self.seqno,
            codecs: self.codecs@,
            since: self.since@,
            upper: self.upper@,
            trace: State::batches_view(self.trace@),
            leased_readers: entries_map(
                leased_reader_ids(self.leased_readers@),
                self.leased_readers@.map_values(|e: (LeasedReaderId, LeasedReaderState)| e.1@),
            ),
            critical_readers: entries_map(
                critical_reader_ids(self.critical_readers@),
                self.critical_readers@.map_values(
                    |e: (CriticalReaderId, CriticalReaderState)| e.1@,
                ),
            ),
            writers: entries_map(
                writer_ids(self.writers@),
                self.writers@.map_values(|e: (WriterId, WriterState)| e.1),
            ),
        }
    }
}

/// The registry of the writers of a list, if none occurs twice in it.
fn writers_registry(list: &Vec<(WriterId, WriterState)>) -> (r: Option<Registry<WriterState>>)
    ensures
        match r {
            Some(registry) => registry.wf() && distinct_ids(writer_ids(list@)) && registry.map()
                == entries_map(
                writer_ids(list@),
                list@.map_values(|e: (WriterId, WriterState)| e.1),
            ),
            None => !distinct_ids(writer_ids(list@)),
        },
{
    let ghost ids = writer_ids(list@);
    let ghost values = list@.map_values(|e: (WriterId, WriterState)| e.1);
    let mut registry: Registry<WriterState> = Registry::new();
    let mut i: usize = 0;
    while i < list.len()
        invariant
            i <= list.len(),
            ids == writer_ids(list@),
            values == list@.map_values(|e: (WriterId, WriterState)| e.1),
            registry.wf(),
            distinct_ids(ids.take(i as int)),
            registry.map() == entries_map(ids.take(i as int), values.take(i as int)),
        decreases list.len() - i,
    {
        let (id, writer) = list[i];
        proof {
            lemma_entries_map(ids.take(i as int), values.take(i as int));
            assert(ids.take(i + 1).drop_last() =~= ids.take(i as int));
            assert(values.take(i + 1).drop_last() =~= values.take(i as int));
            assert(ids[i as int] == id@);
        }
        if !registry.insert_new(id.0, writer) {
            proof {
                let a = choose|a: int| 0 <= a < i && ids.take(i as int)[a] == id@;
                assert(ids[a] == ids[i as int]);
            }
            return None;
        }
        proof {
            let next = ids.take(i + 1);
            assert forall|a: int, b: int| 0 <= a < b < next.len() implies next[a] != next[b] by {
                if b < i {
                    assert(ids.take(i as int)[a] != ids.take(i as int)[b]);
                } else {
                    assert(ids.take(i as int)[a] == ids[a]);
                    assert(ids.take(i as int).contains(ids[a]));
                }
            }
        }
        i += 1;
    }
    proof {
        assert(ids.take(i as int) =~= ids);
        assert(values.take(i as int) =~= values);
    }
    Some(registry)
}

/// The registry of the leased readers of a list, if none occurs twice in it.
fn leased_readers_registry(list: &Vec<(LeasedReaderId, LeasedReaderState)>) -> (r: Option<
    Registry<LeasedReaderState>,
>)
    ensures
        match r {
            Some(registry) => registry.wf() && distinct_ids(leased_reader_ids(list@))
                && registry.map().map_values(|r: LeasedReaderState| r@) == entries_map(
                leased_reader_ids(list@),
                list@.map_values(|e: (LeasedReaderId, LeasedReaderState)| e.1@),
            ),
            None => !distinct_ids(leased_reader_ids(list@)),
        },
{
    let ghost ids = leased_reader_ids(list@);
    let ghost values = list@.map_values(|e: (LeasedReaderId, LeasedReaderState)| e.1@);
    let mut registry: Registry<LeasedReaderState> = Registry::new();
    let mut i: usize = 0;
    assert(registry.map().map_values(|r: LeasedReaderState| r@) =~= entries_map(
        ids.take(0),
        values.take(0),
    ));
    while i < list.len()
        invariant
            i <= list.len(),
            ids == leased_reader_ids(list@),
            values == list@.map_values(|e: (LeasedReaderId, LeasedReaderState)| e.1@),
            registry.wf(),
            distinct_ids(ids.take(i as int)),
            registry.map().map_values(|r: LeasedReaderState| r@) == entries_map(
                ids.take(i as int),
                values.take(i as int),
            ),
        decreases list.len() - i,
    {
        let id = list[i].0;
        let reader = list[i].1.clone();
        let ghost before = registry.map();
        proof {
            lemma_entries_map(ids.take(i as int), values.take(i as int));
            assert(ids.take(i + 1).drop_last() =~= ids.take(i as int));
            assert(values.take(i + 1).drop_last() =~= values.take(i as int));
            assert(ids[i as int] == id@);
            assert(before.map_values(|r: LeasedReaderState| r@).contains_key(id@)
                == before.contains_key(id@));
        }
        if !registry.insert_new(id.0, reader) {
            proof {
                let a = choose|a: int| 0 <= a < i && ids.take(i as int)[a] == id@;
                assert(ids[a] == ids[i as int]);
            }
            return None;
        }
        proof {
            assert(registry.map().map_values(|r: LeasedReaderState| r@) =~= before.map_values(
                |r: LeasedReaderState| r@,
            ).insert(id@, reader@));
            let next = ids.take(i + 1);
            assert forall|a: int, b: int| 0 <= a < b < next.len() implies next[a] != next[b] by {
                if b < i {
                    assert(ids.take(i as int)[a] != ids.take(i as int)[b]);
                } else {
                    assert(ids.take(i as int)[a] == ids[a]);
                    assert(ids.take(i as int).contains(ids[a]));
                }
            }
        }
        i += 1;
    }
    proof {
        assert(ids.take(i as int) =~= ids);
        assert(values.take(i as int) =~= values);
    }
    Some(registry)
}

/// The registry of the critical readers of a list, if none occurs twice in it.
fn critical_readers_registry(list: &Vec<(CriticalReaderId, CriticalReaderState)>) -> (r: Option<
    Registry<CriticalReaderState>,
>)
    ensures
        match r {
            Some(registry) => registry.wf() && distinct_ids(critical_reader_ids(list@))
                && registry.map().map_values(|r: CriticalReaderState| r@) == entries_map(
                critical_reader_ids(list@),
                list@.map_values(|e: (CriticalReaderId, CriticalReaderState)| e.1@),
            ),
            None => !distinct_ids(critical_reader_ids(list@)),
        },
{
    let ghost ids = critical_reader_ids(list@);
    let ghost values = list@.map_values(|e: (CriticalReaderId, CriticalReaderState)| e.1@);
    let mut registry: Registry<CriticalReaderState> = Registry::new();
    let mut i: usize = 0;
    assert(registry.map().map_values(|r: CriticalReaderState| r@) =~= entries_map(
        ids.take(0),
        values.take(0),
    ));
    while i < list.len()
        invariant
            i <= list.len(),
            ids == critical_reader_ids(list@),
            values == list@.map_values(|e: (CriticalReaderId, CriticalReaderState)| e.1@),
            registry.wf(),
            distinct_ids(ids.take(i as int)),
            registry.map().map_values(|r: CriticalReaderState| r@) == entries_map(
                ids.take(i as int),
                values.take(i as int),
            ),
        decreases list.len() - i,
    {
        let id = list[i].0;
        let reader = list[i].1.clone();
        let ghost before = registry.map();
        proof {
            lemma_entries_map(ids.take(i as int), values.take(i as int));
            assert(ids.take(i + 1).drop_last() =~= ids.take(i as int));
            assert(values.take(i + 1).drop_last() =~= values.take(i as int));
            assert(ids[i as int] == id@);
            assert(before.map_values(|r: CriticalReaderState| r@).contains_key(id@)
                == before.contains_key(id@));
        }
        if !registry.insert_new(id.0, reader) {
            proof {
                let a = choose|a: int| 0 <= a < i && ids.take(i as int)[a] == id@;
                assert(ids[a] == ids[i as int]);
            }
            return None;
        }
        proof {
            assert(registry.map().map_values(|r: CriticalReaderState| r@) =~= before.map_values(
                |r: CriticalReaderState| r@,
            ).insert(id@, reader@));
            let next = ids.take(i + 1);
            assert forall|a: int, b: int| 0 <= a < b < next.len() implies next[a] != next[b] by {
                if b < i {
                    assert(ids.take(i as int)[a] != ids.take(i as int)[b]);
                } else {
                    assert(ids.take(i as int)[a] == ids[a]);
                    assert(ids.take(i as int).contains(ids[a]));
                }
            }
        }
        i += 1;
    }
    proof {
        assert(ids.take(i as int) =~= ids);
        assert(values.take(i as int) =~= values);
    }
    Some(registry)
}

impl State {
    /// Whether the trace tiles the times before the upper.
    fn trace_tiles(&self) -> (ok: bool)
        ensures
            ok == tiles(self@.trace, self@.upper),
    {
        let n = self.trace.len();
        let ghost trace = self@.trace;
        if n == 0 {
            return self.upper.eq(&Frontier::minimum());
        }
        if !self.trace[0].lower.eq(&Frontier::minimum()) || !self.trace[n - 1].upper.eq(
            &self.upper,
        ) {
            assert(trace[0] == self.trace@[0]@);
            assert(trace.last() == self.trace@[n - 1]@);
            return false;
        }
        let mut i: usize = 0;
        while i < n
            invariant
                n == self.trace@.len(),
                trace == self@.trace,
                i <= n,
                forall|j: int|
                    0 <= j < i && j < n - 1 ==> (#[trigger] trace[j]).upper == trace[j + 1].lower,
                forall|j: int|
                    0 <= j < i ==> is_antichain((#[trigger] trace[j]).lower) && is_antichain(
                        trace[j].upper,
                    ) && frontier_le(trace[j].lower, trace[j].upper) && trace[j].lower
                        != trace[j].upper,
            decreases n - i,
        {
            let batch = &self.trace[i];
            assert(trace[i as int] == batch@);
            batch.lower.check_antichain();
            batch.upper.check_antichain();
            if !batch.lower.less_than(&batch.upper) {
                return false;
            }
            if i + 1 < n {
                assert(trace[i + 1] == self.trace@[i + 1]@);
                if !batch.upper.eq(&self.trace[i + 1].lower) {
                    return false;
                }
            }
            i += 1;
        }
        assert(trace[0] == self.trace@[0]@);
        assert(trace.last() == self.trace@[n - 1]@);
        true
    }

    /// Whether the since is the one that the capabilities of the readers give.
    fn since_is_held(&self) -> (ok: bool)
        requires
            self.registered_once(),
        ensures
            forall|c: Seq<u64>| #[trigger] self@.capabilities().contains(c) ==> is_antichain(c),
            ok == self@.since_is_held(),
    {
        self.since.check_antichain();
        match self.least_capability() {
            Some(m) => {
                proof {
                    lemma_since_is_held(self@, Some(m@));
                }
                m.eq(&self.since)
            },
            None => {
                proof {
                    lemma_since_is_held(self@, None);
                }
                true
            },
        }
    }

    /// Puts a state together from its parts, as they come out of durable storage,
    /// if they make a state that the operations keep: no participant is
    /// registered twice, the trace tiles the times before the upper, and the
    /// since is the meet of the capabilities of the readers.
    pub fn from_parts(parts: StateParts) -> (r: Option<State>)
        ensures
            match r {
                Some(state) => state.wf() && state@ == parts@ && parts.registered_once(),
                None => !(parts.registered_once() && parts@.wf()),
            },
    {
        let writers = match writers_registry(&parts.writers) {
            Some(registry) => registry,
            None => {
                return None;
            },
        };
        let leased_readers = match leased_readers_registry(&parts.leased_readers) {
            Some(registry) => registry,
            None => {
                return None;
            },
        };
        let critical_readers = match critical_readers_registry(&parts.critical_readers) {
            Some(registry) => registry,
            None => {
                return None;
            },
        };
        parts.since.check_antichain();
        parts.upper.check_antichain();
        let ghost view = parts@;
        let state = State {
            shard_id: parts.shard_id,
            seqno: parts.seqno,
            codecs: parts.codecs,
            since: parts.since,
            upper: parts.upper,
            trace: parts.trace,
            leased_readers,
            critical_readers,
            writers,
        };
        assert(state@ == view);
        if state.trace_tiles() && state.since_is_held() {
            Some(state)
        } else {
            None
        }
    }
}


impl State {
    /// Takes the state apart, for durable storage. The parts make the same
    /// state again.
    pub fn to_parts(&self) -> (parts: StateParts)
        requires
            self.wf(),
        ensures
            parts@ == self@,
            parts.registered_once(),
    {
        let mut writers: Vec<(WriterId, WriterState)> = Vec::new();
        let n = self.writers.len();
        let mut i: usize = 0;
        while i < n
            invariant
                self.wf(),
                n == self.writers.keys().len(),
                i <= n,
                writers@.len() == i,
                forall|j: int|
                    0 <= j < i ==> (#[trigger] writers@[j]).0@ == self.writers.keys()[j]
                        && writers@[j].1 == self.writers.values()[j],
            decreases n - i,
        {
            let key = self.writers.key_at(i);
            let value = *self.writers.value_at(i);
            writers.push((WriterId(key), value));
            i += 1;
        }
        let mut leased_readers: Vec<(LeasedReaderId, LeasedReaderState)> = Vec::new();
        let n = self.leased_readers.len();
        let mut i: usize = 0;
        while i < n
            invariant
                self.wf(),
                n == self.leased_readers.keys().len(),
                i <= n,
                leased_readers@.len() == i,
                forall|j: int|
                    0 <= j < i ==> (#[trigger] leased_readers@[j]).0@
                        == self.leased_readers.keys()[j] && leased_readers@[j].1@
                        == self.leased_readers.values()[j]@,
            decreases n - i,
        {
            let key = self.leased_readers.key_at(i);
            let value = self.leased_readers.value_at(i).clone();
            leased_readers.push((LeasedReaderId(key), value));
            i += 1;
        }
        let mut critical_readers: Vec<(CriticalReaderId, CriticalReaderState)> = Vec::new();
        let n = self.critical_readers.len();
        let mut i: usize = 0;
        while i < n
            invariant
                self.wf(),
                n == self.critical_readers.keys().len(),
                i <= n,
                critical_readers@.len() == i,
                forall|j: int|
                    0 <= j < i ==> (#[trigger] critical_readers@[j]).0@
                        == self.critical_readers.keys()[j] && critical_readers@[j].1@
                        == self.critical_readers.values()[j]@,
            decreases n - i,
        {
            let key = self.critical_readers.key_at(i);
            let value = self.critical_readers.value_at(i).clone();
            critical_readers.push((CriticalReaderId(key), value));
            i += 1;
        }
        let mut trace: Vec<HollowBatch> = Vec::new();
        let n = self.trace.len();
        let mut i: usize = 0;
        while i < n
            invariant
                n == self.trace@.len(),
                i <= n,
                trace@.len() == i,
                forall|j: int| 0 <= j < i ==> (#[trigger] trace@[j])@ == self.trace@[j]@,
            decreases n - i,
        {
            trace.push(self.trace[i].clone());
            i += 1;
        }
        let parts = StateParts {
            shard_id: self.shard_id,
            seqno: self.seqno,
            codecs: self.codecs.clone(),
            since: self.since.clone(),
            upper: self.upper.clone(),
            trace,
            leased_readers,
            critical_readers,
            writers,
        };
        proof {
            let wk = self.writers.keys();
            let wv = self.writers.values();
            assert(writer_ids(parts.writers@) =~= wk);
            assert(parts.writers@.map_values(|e: (WriterId, WriterState)| e.1) =~= wv);
            self.writers.lemma_keys_distinct();
            self.writers.lemma_entries();
            lemma_entries_map(wk, wv);
            assert(parts@.writers =~= self@.writers);

            let lk = self.leased_readers.keys();
            let lv = self.leased_readers.values();
            let lvv = lv.map_values(|r: LeasedReaderState| r@);
            assert(leased_reader_ids(parts.leased_readers@) =~= lk);
            assert(parts.leased_readers@.map_values(
                |e: (LeasedReaderId, LeasedReaderState)| e.1@,
            ) =~= lvv);
            self.leased_readers.lemma_keys_distinct();
            self.leased_readers.lemma_entries();
            lemma_entries_map(lk, lvv);
            assert forall|k: Seq<u8>| #[trigger]
                self@.leased_readers.contains_key(k) implies parts@.leased_readers[k]
                == self@.leased_readers[k] by {
                assert(self.leased_readers.map().contains_key(k));
                let j = lk.index_of(k);
                assert(lk[j] == k);
                assert(lvv[j] == lv[j]@);
            }
            assert(parts@.leased_readers =~= self@.leased_readers);

            let ck = self.critical_readers.keys();
            let cv = self.critical_readers.values();
            let cvv = cv.map_values(|r: CriticalReaderState| r@);
            assert(critical_reader_ids(parts.critical_readers@) =~= ck);
            assert(parts.critical_readers@.map_values(
                |e: (CriticalReaderId, CriticalReaderState)| e.1@,
            ) =~= cvv);
            self.critical_readers.lemma_keys_distinct();
            self.critical_readers.lemma_entries();
            lemma_entries_map(ck, cvv);
            assert forall|k: Seq<u8>| #[trigger]
                self@.critical_readers.contains_key(k) implies parts@.critical_readers[k]
                == self@.critical_readers[k] by {
                assert(self.critical_readers.map().contains_key(k));
                let j = ck.index_of(k);
                assert(ck[j] == k);
                assert(cvv[j] == cv[j]@);
            }
            assert(parts@.critical_readers =~= self@.critical_readers);

            assert(State::batches_view(parts.trace@) =~= State::batches_view(self.trace@));
        }
        parts
    }
}

} // verus!
