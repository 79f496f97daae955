//! What holds of every state of a shard, proved of the transitions one by one.

use crate::frontier::{
    frontier_le, is_antichain, lemma_antichain_short, lemma_frontier_le_antisymmetric,
    lemma_frontier_le_preorder, lemma_frontier_le_total, reaches,
};
use crate::model::{
    committed_after, committed_within_upper, downgraded, held_since, is_meet_of, lease_end,
    lower_bound, run_at, tiles, BatchView, StateView, TransitionView, WriterState,
};
use vstd::prelude::*;

verus! {

/// Among the one-element frontiers of a set there is a least one.
proof fn lemma_least_element(caps: Set<Seq<u64>>, x: u64)
    requires
        caps.contains(seq![x]),
    ensures
        exists|m: u64| #[trigger]
            caps.contains(seq![m]) && forall|c: Seq<u64>|
                caps.contains(c) && c.len() == 1 ==> m <= c[0],
    decreases x,
{
    if exists|c: Seq<u64>| caps.contains(c) && c.len() == 1 && c[0] < x {
        let c = choose|c: Seq<u64>| caps.contains(c) && c.len() == 1 && c[0] < x;
        assert(c =~= seq![c[0]]);
        lemma_least_element(caps, c[0]);
    } else {
        assert(caps.contains(seq![x]) && forall|c: Seq<u64>|
            caps.contains(c) && c.len() == 1 ==> x <= c[0]);
    }
}

/// A set of antichains that is not empty has a meet, and the meet is one of them.
pub proof fn lemma_meet_exists(caps: Set<Seq<u64>>)
    requires
        exists|c: Seq<u64>| caps.contains(c),
        forall|c: Seq<u64>| caps.contains(c) ==> is_antichain(c),
    ensures
        exists|f: Seq<u64>| is_antichain(f) && is_meet_of(f, caps) && caps.contains(f),
{
    assert forall|c: Seq<u64>| caps.contains(c) implies c.len() <= 1 by {
        lemma_antichain_short(c);
    }
    if exists|c: Seq<u64>| caps.contains(c) && c.len() == 1 {
        let c1 = choose|c: Seq<u64>| caps.contains(c) && c.len() == 1;
        assert(c1 =~= seq![c1[0]]);
        lemma_least_element(caps, c1[0]);
        let m = choose|m: u64| #[trigger]
            caps.contains(seq![m]) && forall|c: Seq<u64>|
                caps.contains(c) && c.len() == 1 ==> m <= c[0];
        let f = seq![m];
        assert forall|c: Seq<u64>| caps.contains(c) implies frontier_le(f, c) by {
            assert forall|j: int| 0 <= j < c.len() implies reaches(f, #[trigger] c[j]) by {
                assert(f[0] <= c[j]);
            }
        }
        assert(is_antichain(f) && is_meet_of(f, caps) && caps.contains(f));
    } else {
        let f = choose|c: Seq<u64>| caps.contains(c);
        assert(f.len() == 0);
        assert(is_antichain(f) && is_meet_of(f, caps) && caps.contains(f));
    }
}

/// A set has at most one antichain as its meet.
pub proof fn lemma_meet_unique(f: Seq<u64>, g: Seq<u64>, caps: Set<Seq<u64>>)
    requires
        is_antichain(f),
        is_antichain(g),
        is_meet_of(f, caps),
        is_meet_of(g, caps),
    ensures
        f == g,
{
    lemma_frontier_le_antisymmetric(f, g);
}

/// The since that capabilities give: the one that was there where nobody holds
/// one, and else their meet, which is the least of them.
pub proof fn lemma_held_since(caps: Set<Seq<u64>>, unheld: Seq<u64>)
    requires
        is_antichain(unheld),
        forall|c: Seq<u64>| caps.contains(c) ==> is_antichain(c),
    ensures
        is_antichain(held_since(caps, unheld)),
        (forall|c: Seq<u64>| !caps.contains(c)) ==> held_since(caps, unheld) == unheld,
        (exists|c: Seq<u64>| caps.contains(c)) ==> is_meet_of(held_since(caps, unheld), caps)
            && caps.contains(held_since(caps, unheld)),
{
    if exists|c: Seq<u64>| caps.contains(c) {
        lemma_meet_exists(caps);
        let f = choose|f: Seq<u64>| is_antichain(f) && is_meet_of(f, caps) && caps.contains(f);
        let h = held_since(caps, unheld);
        assert(is_antichain(f) && is_meet_of(f, caps));
        assert(is_antichain(h) && is_meet_of(h, caps));
        lemma_meet_unique(f, h, caps);
    }
}

/// An antichain that is one of the capabilities and at or before all of them is
/// the since that they give.
pub proof fn lemma_held_since_is(caps: Set<Seq<u64>>, unheld: Seq<u64>, m: Seq<u64>)
    requires
        is_antichain(unheld),
        forall|c: Seq<u64>| caps.contains(c) ==> is_antichain(c),
        caps.contains(m),
        lower_bound(m, caps),
    ensures
        held_since(caps, unheld) == m,
{
    lemma_held_since(caps, unheld);
    assert(is_meet_of(m, caps));
    lemma_meet_unique(m, held_since(caps, unheld), caps);
}

/// A state whose frontiers are antichains and whose trace tiles is well formed
/// once its since is the one that its capabilities give.
pub proof fn lemma_with_held_since(s: StateView)
    requires
        is_antichain(s.since),
        is_antichain(s.upper),
        tiles(s.trace, s.upper),
        forall|c: Seq<u64>| #[trigger] s.capabilities().contains(c) ==> is_antichain(c),
    ensures
        s.with_held_since().wf(),
        s.with_held_since().capabilities() == s.capabilities(),
        lower_bound(s.since, s.capabilities()) ==> frontier_le(s.since, s.with_held_since().since),
{
    let caps = s.capabilities();
    let t = s.with_held_since();
    lemma_held_since(caps, s.since);
    assert(t.capabilities() =~= caps);
    lemma_frontier_le_preorder(t.since, t.since, t.since);
    assert(is_meet_of(t.since, caps.insert(t.since)));
}

/// The frontier that a capability moves to is an antichain at or beyond it.
pub proof fn lemma_downgraded(since: Seq<u64>, new_since: Seq<u64>)
    requires
        is_antichain(since),
        is_antichain(new_since),
    ensures
        is_antichain(downgraded(since, new_since)),
        frontier_le(since, downgraded(since, new_since)),
        frontier_le(new_since, downgraded(since, new_since)),
{
    lemma_frontier_le_preorder(since, since, since);
    lemma_frontier_le_preorder(new_since, new_since, new_since);
    lemma_frontier_le_total(since, new_since);
}


/// A change to the writers alone leaves the capabilities, and all that is said
/// of them, as they were.
pub proof fn lemma_writers_only(s: StateView, t: StateView)
    requires
        s.wf(),
        t == (StateView { writers: t.writers, ..s }),
    ensures
        t.wf(),
        t.capabilities() == s.capabilities(),
        s.since_within_upper() ==> t.since_within_upper(),
{
    assert(t.capabilities() =~= s.capabilities());
}

/// Registering a writer keeps the state well formed.
pub proof fn lemma_register_writer(s: StateView, writer_id: Seq<u8>, lease_duration: u64, now: u64)
    requires
        s.wf(),
    ensures
        s.register_writer(writer_id, lease_duration, now).wf(),
        s.since_within_upper() ==> s.register_writer(
            writer_id,
            lease_duration,
            now,
        ).since_within_upper(),
{
    lemma_writers_only(s, s.register_writer(writer_id, lease_duration, now));
}

/// A sign of life of a writer keeps the state well formed.
pub proof fn lemma_heartbeat_writer(s: StateView, writer_id: Seq<u8>, now: u64)
    requires
        s.wf(),
    ensures
        s.heartbeat_writer(writer_id, now).wf(),
        s.since_within_upper() ==> s.heartbeat_writer(writer_id, now).since_within_upper(),
{
    lemma_writers_only(s, s.heartbeat_writer(writer_id, now));
}

/// Removing a writer keeps the state well formed.
pub proof fn lemma_expire_writer(s: StateView, writer_id: Seq<u8>)
    requires
        s.wf(),
    ensures
        s.expire_writer(writer_id).wf(),
        s.since_within_upper() ==> s.expire_writer(writer_id).since_within_upper(),
{
    lemma_writers_only(s, s.expire_writer(writer_id));
}

/// In a well-formed state the since is at or before every capability.
pub proof fn lemma_since_pins(s: StateView)
    requires
        s.wf(),
    ensures
        lower_bound(s.since, s.capabilities()),
{
    assert forall|c: Seq<u64>| s.capabilities().contains(c) implies frontier_le(s.since, c) by {
        assert(s.capabilities().insert(s.since).contains(c));
    }
}

/// Registering a leased reader keeps the state well formed and its since in
/// place: the reader's capability is its own old one, or the since.
pub proof fn lemma_register_leased_reader(s: StateView, reader_id: Seq<u8>, lease_duration: u64, now: u64)
    requires
        s.wf(),
    ensures
        s.register_leased_reader(reader_id, lease_duration, now).wf(),
        s.since_within_upper() ==> s.register_leased_reader(
            reader_id,
            lease_duration,
            now,
        ).since_within_upper(),
{
    let t = s.register_leased_reader(reader_id, lease_duration, now);
    let cap = s.leased_capability(reader_id);
    lemma_since_pins(s);
    assert(t.leased_readers.contains_key(reader_id) && t.leased_readers[reader_id].since == cap);
    assert(t.capabilities().contains(cap));
    assert forall|c: Seq<u64>| t.capabilities().contains(c) implies s.capabilities().insert(
        s.since,
    ).contains(c) by {
        if exists|k: Seq<u8>| #[trigger]
            t.leased_readers.contains_key(k) && t.leased_readers[k].since == c {
            let k = choose|k: Seq<u8>| #[trigger]
                t.leased_readers.contains_key(k) && t.leased_readers[k].since == c;
            if k != reader_id {
                assert(s.leased_readers.contains_key(k) && s.leased_readers[k].since == c);
            } else if s.leased_readers.contains_key(reader_id) {
                assert(s.leased_readers.contains_key(k) && s.leased_readers[k].since == c);
            }
        } else {
            let k = choose|k: Seq<u8>| #[trigger]
                t.critical_readers.contains_key(k) && t.critical_readers[k].since == c;
            assert(s.critical_readers.contains_key(k) && s.critical_readers[k].since == c);
        }
    }
    assert forall|c: Seq<u64>| s.capabilities().contains(c) implies t.capabilities().contains(
        c,
    ) by {
        if exists|k: Seq<u8>| #[trigger]
            s.leased_readers.contains_key(k) && s.leased_readers[k].since == c {
            let k = choose|k: Seq<u8>| #[trigger]
                s.leased_readers.contains_key(k) && s.leased_readers[k].since == c;
            assert(t.leased_readers.contains_key(k) && t.leased_readers[k].since == c);
        } else {
            let k = choose|k: Seq<u8>| #[trigger]
                s.critical_readers.contains_key(k) && s.critical_readers[k].since == c;
            assert(t.critical_readers.contains_key(k) && t.critical_readers[k].since == c);
        }
    }
    assert forall|g: Seq<u64>| lower_bound(g, t.capabilities()) implies frontier_le(g, t.since) by {
        if s.capabilities().contains(cap) {
            assert(lower_bound(g, s.capabilities()));
        } else {
            assert(cap == s.since);
        }
    }
    assert forall|g: Seq<u64>| lower_bound(g, t.capabilities().insert(t.since)) implies frontier_le(
        g,
        t.since,
    ) by {
        assert(t.capabilities().insert(t.since).contains(t.since));
    }
    lemma_frontier_le_preorder(s.since, s.since, s.since);
    assert forall|c: Seq<u64>| t.capabilities().insert(t.since).contains(c) implies frontier_le(
        t.since,
        c,
    ) by {}
    if s.since_within_upper() {
        assert forall|c: Seq<u64>| #[trigger] t.capabilities().contains(c) implies frontier_le(
            c,
            t.upper,
        ) by {
            assert(s.capabilities().insert(s.since).contains(c));
        }
    }
}

/// Registering a critical reader keeps the state well formed and its since in place.
pub proof fn lemma_register_critical_reader(s: StateView, reader_id: Seq<u8>)
    requires
        s.wf(),
    ensures
        s.register_critical_reader(reader_id).wf(),
        s.since_within_upper() ==> s.register_critical_reader(reader_id).since_within_upper(),
{
    let t = s.register_critical_reader(reader_id);
    if !s.critical_readers.contains_key(reader_id) {
        lemma_since_pins(s);
        assert(t.critical_readers.contains_key(reader_id) && t.critical_readers[reader_id].since
            == s.since);
        assert(t.capabilities().contains(s.since));
        assert forall|c: Seq<u64>| t.capabilities().contains(c) implies s.capabilities().insert(
            s.since,
        ).contains(c) by {
            if exists|k: Seq<u8>| #[trigger]
                t.leased_readers.contains_key(k) && t.leased_readers[k].since == c {
                let k = choose|k: Seq<u8>| #[trigger]
                    t.leased_readers.contains_key(k) && t.leased_readers[k].since == c;
                assert(s.leased_readers.contains_key(k) && s.leased_readers[k].since == c);
            } else {
                let k = choose|k: Seq<u8>| #[trigger]
                    t.critical_readers.contains_key(k) && t.critical_readers[k].since == c;
                if k != reader_id {
                    assert(s.critical_readers.contains_key(k) && s.critical_readers[k].since == c);
                }
            }
        }
        lemma_frontier_le_preorder(s.since, s.since, s.since);
        assert forall|c: Seq<u64>| t.capabilities().insert(t.since).contains(c) implies frontier_le(
            t.since,
            c,
        ) by {}
        assert forall|g: Seq<u64>| lower_bound(g, t.capabilities()) implies frontier_le(
            g,
            t.since,
        ) by {}
        assert forall|g: Seq<u64>| lower_bound(
            g,
            t.capabilities().insert(t.since),
        ) implies frontier_le(g, t.since) by {
            assert(t.capabilities().insert(t.since).contains(t.since));
        }
        if s.since_within_upper() {
            assert forall|c: Seq<u64>| #[trigger] t.capabilities().contains(c) implies frontier_le(
                c,
                t.upper,
            ) by {
                assert(s.capabilities().insert(s.since).contains(c));
            }
        }
    }
}


/// The capabilities after the registration of one leased reader was written:
/// the written one, and those that were there, but perhaps for the one it had.
pub proof fn lemma_capabilities_leased_written(s: StateView, t: StateView, reader_id: Seq<u8>)
    requires
        t.leased_readers.contains_key(reader_id),
        t.leased_readers == s.leased_readers.insert(reader_id, t.leased_readers[reader_id]),
        t.critical_readers == s.critical_readers,
    ensures
        t.capabilities().contains(t.leased_readers[reader_id].since),
        forall|c: Seq<u64>| #[trigger]
            t.capabilities().contains(c) ==> c == t.leased_readers[reader_id].since
                || s.capabilities().contains(c),
        forall|c: Seq<u64>| #[trigger]
            s.capabilities().contains(c) ==> t.capabilities().contains(c) || (
            s.leased_readers.contains_key(reader_id) && c == s.leased_readers[reader_id].since),
{
    assert forall|c: Seq<u64>| #[trigger] t.capabilities().contains(c) implies c
        == t.leased_readers[reader_id].since || s.capabilities().contains(c) by {
        if exists|k: Seq<u8>| #[trigger]
            t.leased_readers.contains_key(k) && t.leased_readers[k].since == c {
            let k = choose|k: Seq<u8>| #[trigger]
                t.leased_readers.contains_key(k) && t.leased_readers[k].since == c;
            if k != reader_id {
                assert(s.leased_readers.contains_key(k) && s.leased_readers[k].since == c);
            }
        } else {
            let k = choose|k: Seq<u8>| #[trigger]
                t.critical_readers.contains_key(k) && t.critical_readers[k].since == c;
            assert(s.critical_readers.contains_key(k) && s.critical_readers[k].since == c);
        }
    }
    assert forall|c: Seq<u64>| #[trigger] s.capabilities().contains(c) implies t.capabilities().contains(
        c,
    ) || (s.leased_readers.contains_key(reader_id) && c == s.leased_readers[reader_id].since) by {
        if exists|k: Seq<u8>| #[trigger]
            s.leased_readers.contains_key(k) && s.leased_readers[k].since == c {
            let k = choose|k: Seq<u8>| #[trigger]
                s.leased_readers.contains_key(k) && s.leased_readers[k].since == c;
            if k != reader_id {
                assert(t.leased_readers.contains_key(k) && t.leased_readers[k].since == c);
            }
        } else {
            let k = choose|k: Seq<u8>| #[trigger]
                s.critical_readers.contains_key(k) && s.critical_readers[k].since == c;
            assert(t.critical_readers.contains_key(k) && t.critical_readers[k].since == c);
        }
    }
}

/// The capabilities after the registration of one critical reader was written.
pub proof fn lemma_capabilities_critical_written(s: StateView, t: StateView, reader_id: Seq<u8>)
    requires
        t.critical_readers.contains_key(reader_id),
        t.critical_readers == s.critical_readers.insert(reader_id, t.critical_readers[reader_id]),
        t.leased_readers == s.leased_readers,
    ensures
        t.capabilities().contains(t.critical_readers[reader_id].since),
        forall|c: Seq<u64>| #[trigger]
            t.capabilities().contains(c) ==> c == t.critical_readers[reader_id].since
                || s.capabilities().contains(c),
        forall|c: Seq<u64>| #[trigger]
            s.capabilities().contains(c) ==> t.capabilities().contains(c) || (
            s.critical_readers.contains_key(reader_id) && c
                == s.critical_readers[reader_id].since),
{
    assert forall|c: Seq<u64>| #[trigger] t.capabilities().contains(c) implies c
        == t.critical_readers[reader_id].since || s.capabilities().contains(c) by {
        if exists|k: Seq<u8>| #[trigger]
            t.leased_readers.contains_key(k) && t.leased_readers[k].since == c {
            let k = choose|k: Seq<u8>| #[trigger]
                t.leased_readers.contains_key(k) && t.leased_readers[k].since == c;
            assert(s.leased_readers.contains_key(k) && s.leased_readers[k].since == c);
        } else {
            let k = choose|k: Seq<u8>| #[trigger]
                t.critical_readers.contains_key(k) && t.critical_readers[k].since == c;
            if k != reader_id {
                assert(s.critical_readers.contains_key(k) && s.critical_readers[k].since == c);
            }
        }
    }
    assert forall|c: Seq<u64>| #[trigger] s.capabilities().contains(c) implies t.capabilities().contains(
        c,
    ) || (s.critical_readers.contains_key(reader_id) && c
        == s.critical_readers[reader_id].since) by {
        if exists|k: Seq<u8>| #[trigger]
            s.leased_readers.contains_key(k) && s.leased_readers[k].since == c {
            let k = choose|k: Seq<u8>| #[trigger]
                s.leased_readers.contains_key(k) && s.leased_readers[k].since == c;
            assert(t.leased_readers.contains_key(k) && t.leased_readers[k].since == c);
        } else {
            let k = choose|k: Seq<u8>| #[trigger]
                s.critical_readers.contains_key(k) && s.critical_readers[k].since == c;
            if k != reader_id {
                assert(t.critical_readers.contains_key(k) && t.critical_readers[k].since == c);
            }
        }
    }
}

/// Taking registrations of readers away leaves no capability that was not there.
pub proof fn lemma_capabilities_removed(s: StateView, t: StateView)
    requires
        forall|k: Seq<u8>| #[trigger]
            t.leased_readers.contains_key(k) ==> s.leased_readers.contains_key(k)
                && t.leased_readers[k] == s.leased_readers[k],
        forall|k: Seq<u8>| #[trigger]
            t.critical_readers.contains_key(k) ==> s.critical_readers.contains_key(k)
                && t.critical_readers[k] == s.critical_readers[k],
    ensures
        forall|c: Seq<u64>| #[trigger] t.capabilities().contains(c) ==> s.capabilities().contains(c),
{
    assert forall|c: Seq<u64>| #[trigger] t.capabilities().contains(c) implies s.capabilities().contains(
        c,
    ) by {
        if exists|k: Seq<u8>| #[trigger]
            t.leased_readers.contains_key(k) && t.leased_readers[k].since == c {
            let k = choose|k: Seq<u8>| #[trigger]
                t.leased_readers.contains_key(k) && t.leased_readers[k].since == c;
            assert(s.leased_readers.contains_key(k) && s.leased_readers[k].since == c);
        } else {
            let k = choose|k: Seq<u8>| #[trigger]
                t.critical_readers.contains_key(k) && t.critical_readers[k].since == c;
            assert(s.critical_readers.contains_key(k) && s.critical_readers[k].since == c);
        }
    }
}

/// A sign of life of a leased reader keeps the state well formed.
pub proof fn lemma_heartbeat_leased_reader(s: StateView, reader_id: Seq<u8>, now: u64)
    requires
        s.wf(),
    ensures
        s.heartbeat_leased_reader(reader_id, now).wf(),
        s.heartbeat_leased_reader(reader_id, now).capabilities() == s.capabilities(),
        s.since_within_upper() ==> s.heartbeat_leased_reader(reader_id, now).since_within_upper(),
{
    let t = s.heartbeat_leased_reader(reader_id, now);
    if s.leased_readers.contains_key(reader_id) {
        lemma_capabilities_leased_written(s, t, reader_id);
        assert(s.capabilities().contains(s.leased_readers[reader_id].since));
        assert(t.capabilities() =~= s.capabilities());
    }
}

/// Moving the capability of a leased reader keeps the state well formed, and the
/// since of the shard does not go back.
pub proof fn lemma_downgrade_since(s: StateView, reader_id: Seq<u8>, new_since: Seq<u64>)
    requires
        s.wf(),
        is_antichain(new_since),
    ensures
        s.downgrade_since(reader_id, new_since).wf(),
        frontier_le(s.since, s.downgrade_since(reader_id, new_since).since),
        s.since_within_upper() && frontier_le(new_since, s.upper) ==> s.downgrade_since(
            reader_id,
            new_since,
        ).since_within_upper(),
{
    lemma_frontier_le_preorder(s.since, s.since, s.since);
    if s.leased_readers.contains_key(reader_id) {
        let r = s.leased_readers[reader_id];
        let moved = StateView {
            leased_readers: s.leased_readers.insert(
                reader_id,
                crate::model::LeasedReaderView { since: downgraded(r.since, new_since), ..r },
            ),
            ..s
        };
        let t = s.downgrade_since(reader_id, new_since);
        assert(t == moved.with_held_since());
        lemma_since_pins(s);
        assert(s.capabilities().contains(r.since));
        lemma_downgraded(r.since, new_since);
        lemma_capabilities_leased_written(s, moved, reader_id);
        assert forall|c: Seq<u64>| #[trigger] moved.capabilities().contains(c) implies is_antichain(
            c,
        ) && frontier_le(s.since, c) by {
            if c == downgraded(r.since, new_since) {
                lemma_frontier_le_preorder(s.since, r.since, c);
            }
        }
        lemma_with_held_since(moved);
        lemma_held_since(moved.capabilities(), moved.since);
        if s.since_within_upper() && frontier_le(new_since, s.upper) {
            assert forall|c: Seq<u64>| #[trigger] t.capabilities().contains(c) implies frontier_le(
                c,
                t.upper,
            ) by {}
            assert(t.capabilities().contains(t.since));
        }
    }
}

/// Swapping the token and moving the capability of a critical reader keeps the
/// state well formed, and the since of the shard does not go back.
pub proof fn lemma_compare_and_downgrade_since(
    s: StateView,
    reader_id: Seq<u8>,
    expected_opaque: Seq<u8>,
    new_opaque: Seq<u8>,
    new_since: Seq<u64>,
)
    requires
        s.wf(),
        is_antichain(new_since),
    ensures
        s.compare_and_downgrade_since(reader_id, expected_opaque, new_opaque, new_since).wf(),
        frontier_le(
            s.since,
            s.compare_and_downgrade_since(reader_id, expected_opaque, new_opaque, new_since).since,
        ),
        s.since_within_upper() && frontier_le(new_since, s.upper)
            ==> s.compare_and_downgrade_since(
            reader_id,
            expected_opaque,
            new_opaque,
            new_since,
        ).since_within_upper(),
{
    lemma_frontier_le_preorder(s.since, s.since, s.since);
    if s.holds_opaque(reader_id, expected_opaque) {
        let r = s.critical_readers[reader_id];
        let moved = StateView {
            critical_readers: s.critical_readers.insert(
                reader_id,
                crate::model::CriticalReaderView {
                    since: downgraded(r.since, new_since),
                    opaque: new_opaque,
                },
            ),
            ..s
        };
        let t = s.compare_and_downgrade_since(reader_id, expected_opaque, new_opaque, new_since);
        assert(t == moved.with_held_since());
        lemma_since_pins(s);
        assert(s.capabilities().contains(r.since));
        lemma_downgraded(r.since, new_since);
        lemma_capabilities_critical_written(s, moved, reader_id);
        assert forall|c: Seq<u64>| #[trigger] moved.capabilities().contains(c) implies is_antichain(
            c,
        ) && frontier_le(s.since, c) by {
            if c == downgraded(r.since, new_since) {
                lemma_frontier_le_preorder(s.since, r.since, c);
            }
        }
        lemma_with_held_since(moved);
        lemma_held_since(moved.capabilities(), moved.since);
        if s.since_within_upper() && frontier_le(new_since, s.upper) {
            assert forall|c: Seq<u64>| #[trigger] t.capabilities().contains(c) implies frontier_le(
                c,
                t.upper,
            ) by {}
            assert(t.capabilities().contains(t.since));
        }
    }
}

/// A state without some of its readers is well formed once its since is the one
/// that the capabilities left give, and that since is not before the old one.
pub proof fn lemma_readers_removed(s: StateView, left: StateView)
    requires
        s.wf(),
        left == (StateView {
            leased_readers: left.leased_readers,
            critical_readers: left.critical_readers,
            ..s
        }),
        forall|k: Seq<u8>| #[trigger]
            left.leased_readers.contains_key(k) ==> s.leased_readers.contains_key(k)
                && left.leased_readers[k] == s.leased_readers[k],
        forall|k: Seq<u8>| #[trigger]
            left.critical_readers.contains_key(k) ==> s.critical_readers.contains_key(k)
                && left.critical_readers[k] == s.critical_readers[k],
    ensures
        left.with_held_since().wf(),
        frontier_le(s.since, left.with_held_since().since),
        s.since_within_upper() ==> left.with_held_since().since_within_upper(),
{
    let t = left.with_held_since();
    lemma_since_pins(s);
    lemma_capabilities_removed(s, left);
    lemma_with_held_since(left);
    lemma_held_since(left.capabilities(), left.since);
    lemma_frontier_le_preorder(s.since, s.since, s.since);
    if s.since_within_upper() {
        assert forall|c: Seq<u64>| #[trigger] t.capabilities().contains(c) implies frontier_le(
            c,
            t.upper,
        ) by {}
        if exists|c: Seq<u64>| left.capabilities().contains(c) {
            assert(t.capabilities().contains(t.since));
        }
    }
}

/// Removing a leased reader keeps the state well formed, and the since of the
/// shard does not go back.
pub proof fn lemma_expire_leased_reader(s: StateView, reader_id: Seq<u8>)
    requires
        s.wf(),
    ensures
        s.expire_leased_reader(reader_id).wf(),
        frontier_le(s.since, s.expire_leased_reader(reader_id).since),
        s.since_within_upper() ==> s.expire_leased_reader(reader_id).since_within_upper(),
{
    lemma_readers_removed(
        s,
        StateView { leased_readers: s.leased_readers.remove(reader_id), ..s },
    );
}

/// Removing a critical reader keeps the state well formed, and the since of the
/// shard does not go back.
pub proof fn lemma_expire_critical_reader(s: StateView, reader_id: Seq<u8>)
    requires
        s.wf(),
    ensures
        s.expire_critical_reader(reader_id).wf(),
        frontier_le(s.since, s.expire_critical_reader(reader_id).since),
        s.since_within_upper() ==> s.expire_critical_reader(reader_id).since_within_upper(),
{
    lemma_readers_removed(
        s,
        StateView { critical_readers: s.critical_readers.remove(reader_id), ..s },
    );
}


/// An append keeps the state well formed. It leaves the since and the
/// capabilities alone, and the upper does not go back.
pub proof fn lemma_compare_and_append(
    s: StateView,
    writer_id: Seq<u8>,
    batch: BatchView,
    expected_lower: Seq<u64>,
    new_upper: Seq<u64>,
    now: u64,
)
    requires
        s.wf(),
        is_antichain(expected_lower),
        is_antichain(new_upper),
    ensures
        s.compare_and_append(writer_id, batch, expected_lower, new_upper, now).wf(),
        s.compare_and_append(writer_id, batch, expected_lower, new_upper, now).since == s.since,
        frontier_le(
            s.upper,
            s.compare_and_append(writer_id, batch, expected_lower, new_upper, now).upper,
        ),
        s.since_within_upper() ==> s.compare_and_append(
            writer_id,
            batch,
            expected_lower,
            new_upper,
            now,
        ).since_within_upper(),
{
    let t = s.compare_and_append(writer_id, batch, expected_lower, new_upper, now);
    lemma_frontier_le_preorder(s.upper, s.upper, s.upper);
    if s.append_verdict(batch, expected_lower, new_upper) is Applied {
        assert(t.capabilities() =~= s.capabilities());
        lemma_frontier_le_total(expected_lower, new_upper);
        assert(frontier_le(s.upper, new_upper));
        if expected_lower != new_upper {
            let n = s.trace.len() as int;
            assert(t.trace == s.trace.push(batch));
            assert forall|i: int| 0 <= i < t.trace.len() - 1 implies (#[trigger] t.trace[i]).upper
                == t.trace[i + 1].lower by {
                if i < n - 1 {
                    assert(t.trace[i] == s.trace[i]);
                    assert(t.trace[i + 1] == s.trace[i + 1]);
                }
            }
            assert forall|i: int| 0 <= i < t.trace.len() implies is_antichain(
                (#[trigger] t.trace[i]).lower,
            ) && is_antichain(t.trace[i].upper) && frontier_le(t.trace[i].lower, t.trace[i].upper)
                && t.trace[i].lower != t.trace[i].upper by {
                if i < n {
                    assert(t.trace[i] == s.trace[i]);
                }
            }
            if n > 0 {
                assert(t.trace[0] == s.trace[0]);
            }
            assert(tiles(t.trace, t.upper));
        }
        if s.since_within_upper() {
            lemma_frontier_le_preorder(s.since, s.upper, new_upper);
            assert forall|c: Seq<u64>| #[trigger] t.capabilities().contains(c) implies frontier_le(
                c,
                t.upper,
            ) by {
                lemma_frontier_le_preorder(c, s.upper, new_upper);
            }
        }
    }
}

/// In a trace that tiles, a batch starts before every batch at or after it ends.
pub proof fn lemma_tiles_ordered(trace: Seq<BatchView>, upper: Seq<u64>, i: int, j: int)
    requires
        tiles(trace, upper),
        0 <= i <= j < trace.len(),
    ensures
        frontier_le(trace[i].lower, trace[j].upper),
        !frontier_le(trace[j].upper, trace[i].lower),
    decreases j - i,
{
    if i == j {
        if frontier_le(trace[j].upper, trace[i].lower) {
            lemma_frontier_le_antisymmetric(trace[i].lower, trace[i].upper);
        }
    } else {
        lemma_tiles_ordered(trace, upper, i, j - 1);
        assert(trace[j - 1].upper == trace[j].lower);
        lemma_frontier_le_preorder(trace[i].lower, trace[j].lower, trace[j].upper);
        if frontier_le(trace[j].upper, trace[i].lower) {
            lemma_frontier_le_preorder(trace[j].upper, trace[i].lower, trace[j].lower);
            lemma_frontier_le_antisymmetric(trace[j].lower, trace[j].upper);
        }
    }
}

/// In a trace that tiles, a batch ends at or before every later batch starts.
pub proof fn lemma_tiles_consecutive(trace: Seq<BatchView>, upper: Seq<u64>, i: int, j: int)
    requires
        tiles(trace, upper),
        0 <= i < j < trace.len(),
    ensures
        frontier_le(trace[i].upper, trace[j].lower),
    decreases j - i,
{
    lemma_frontier_le_preorder(trace[j].lower, trace[j].lower, trace[j].lower);
    if i + 1 == j {
        assert(trace[i].upper == trace[i + 1].lower);
    } else {
        lemma_tiles_consecutive(trace, upper, i, j - 1);
        assert(trace[j - 1].upper == trace[j].lower);
        lemma_frontier_le_preorder(trace[i].upper, trace[j - 1].lower, trace[j - 1].upper);
    }
}

/// The time `t` lies in the interval that the batch covers.
pub open spec fn covers(batch: BatchView, t: u64) -> bool {
    reaches(batch.lower, t) && !reaches(batch.upper, t)
}

/// A trace that tiles leaves no gap: each time before the upper lies in a batch.
pub proof fn lemma_tiles_without_gap(trace: Seq<BatchView>, upper: Seq<u64>, t: u64)
    requires
        tiles(trace, upper),
        !reaches(upper, t),
    ensures
        exists|i: int| 0 <= i < trace.len() && covers(#[trigger] trace[i], t),
    decreases trace.len(),
{
    if trace.len() == 0 {
        assert(upper[0] <= t);
    } else {
        let last = trace.len() - 1;
        if reaches(trace[last].lower, t) {
            assert(covers(trace[last], t));
        } else {
            let front = trace.drop_last();
            if front.len() == 0 {
                assert(trace[last].lower[0] <= t);
            } else {
                assert(front[0] == trace[0]);
                assert(front.last() == trace[last - 1]);
                assert(trace[last - 1].upper == trace[last - 1 + 1].lower);
                assert forall|i: int| 0 <= i < front.len() - 1 implies (#[trigger] front[i]).upper
                    == front[i + 1].lower by {
                    assert(front[i] == trace[i]);
                    assert(front[i + 1] == trace[i + 1]);
                }
                assert forall|i: int| 0 <= i < front.len() implies is_antichain(
                    (#[trigger] front[i]).lower,
                ) && is_antichain(front[i].upper) && frontier_le(front[i].lower, front[i].upper)
                    && front[i].lower != front[i].upper by {
                    assert(front[i] == trace[i]);
                }
                lemma_tiles_without_gap(front, trace[last].lower, t);
                let i = choose|i: int| 0 <= i < front.len() && covers(#[trigger] front[i], t);
                assert(front[i] == trace[i]);
            }
        }
    }
}

/// A trace that tiles has no overlap: no time lies in two batches.
pub proof fn lemma_tiles_without_overlap(trace: Seq<BatchView>, upper: Seq<u64>, t: u64, i: int, j: int)
    requires
        tiles(trace, upper),
        0 <= i < trace.len(),
        0 <= j < trace.len(),
        covers(trace[i], t),
        covers(trace[j], t),
    ensures
        i == j,
{
    if i < j {
        lemma_tiles_consecutive(trace, upper, i, j);
        let y = choose|y: int| 0 <= y < trace[j].lower.len() && trace[j].lower[y] <= t;
        assert(reaches(trace[i].upper, trace[j].lower[y]));
    } else if j < i {
        lemma_tiles_consecutive(trace, upper, j, i);
        let y = choose|y: int| 0 <= y < trace[i].lower.len() && trace[i].lower[y] <= t;
        assert(reaches(trace[j].upper, trace[i].lower[y]));
    }
}

/// In a trace that tiles, a run of batches stands at one index only.
pub proof fn lemma_run_at_unique(trace: Seq<BatchView>, upper: Seq<u64>, inputs: Seq<BatchView>, a: int, b: int)
    requires
        tiles(trace, upper),
        inputs.len() > 0,
        run_at(trace, inputs, a),
        run_at(trace, inputs, b),
    ensures
        a == b,
{
    assert(trace.subrange(a, a + inputs.len())[0] == trace[a]);
    assert(trace.subrange(b, b + inputs.len())[0] == trace[b]);
    if a < b {
        lemma_tiles_consecutive(trace, upper, a, b);
        lemma_tiles_ordered(trace, upper, a, a);
    } else if b < a {
        lemma_tiles_consecutive(trace, upper, b, a);
        lemma_tiles_ordered(trace, upper, b, b);
    }
}

/// Putting the result of a compaction in the place of its inputs keeps the state
/// well formed, and leaves its frontiers and registrations alone.
pub proof fn lemma_apply_merge_res(s: StateView, inputs: Seq<BatchView>, output: BatchView, at: int)
    requires
        s.wf(),
        s.merge_applies_at(inputs, output, at),
    ensures
        s.apply_merge_res(inputs, output, at).wf(),
        s.since_within_upper() ==> s.apply_merge_res(inputs, output, at).since_within_upper(),
{
    let t = s.apply_merge_res(inputs, output, at);
    let n = inputs.len() as int;
    let old_len = s.trace.len() as int;
    assert(t.capabilities() =~= s.capabilities());
    assert(s.trace.subrange(at, at + n)[0] == s.trace[at]);
    assert(s.trace.subrange(at, at + n)[n - 1] == s.trace[at + n - 1]);
    assert(inputs[0] == s.trace[at]);
    assert(inputs.last() == s.trace[at + n - 1]);
    lemma_tiles_ordered(s.trace, s.upper, at, at + n - 1);
    assert(t.trace.len() == old_len - n + 1);
    assert forall|i: int| 0 <= i < t.trace.len() implies #[trigger] t.trace[i] == (if i < at {
        s.trace[i]
    } else if i == at {
        output
    } else {
        s.trace[i + n - 1]
    }) by {}
    assert forall|i: int| 0 <= i < t.trace.len() - 1 implies (#[trigger] t.trace[i]).upper
        == t.trace[i + 1].lower by {
        if i + 1 < at {
            assert(s.trace[i].upper == s.trace[i + 1].lower);
        } else if i + 1 == at {
            assert(s.trace[i].upper == s.trace[i + 1].lower);
        } else if i == at {
            assert(s.trace[at + n - 1].upper == s.trace[at + n - 1 + 1].lower);
        } else {
            assert(s.trace[i + n - 1].upper == s.trace[i + n - 1 + 1].lower);
        }
    }
    assert forall|i: int| 0 <= i < t.trace.len() implies is_antichain(
        (#[trigger] t.trace[i]).lower,
    ) && is_antichain(t.trace[i].upper) && frontier_le(t.trace[i].lower, t.trace[i].upper)
        && t.trace[i].lower != t.trace[i].upper by {
        if i == at {
            lemma_frontier_le_preorder(output.upper, output.upper, output.upper);
        }
    }
    assert(t.trace[0].lower == seq![0u64]);
    assert(t.trace.last().upper == s.upper);
}


/// The state of a shard that was just created is well formed, and its since is
/// at its upper.
pub proof fn lemma_init(shard_id: Seq<u8>, codecs: crate::model::CodecsView)
    ensures
        StateView::init(shard_id, codecs).wf(),
        StateView::init(shard_id, codecs).since_within_upper(),
{
    let s = StateView::init(shard_id, codecs);
    assert(s.capabilities() =~= Set::<Seq<u64>>::empty());
    lemma_frontier_le_preorder(s.since, s.since, s.since);
}


/// An operation that does not make a new version leaves the state as it is.
pub proof fn lemma_no_change(s: StateView, t: TransitionView)
    requires
        s.wf(),
        !t.changes(s),
    ensures
        t.apply(s) == s,
        t.step(s) == s,
{
    match t {
        TransitionView::DowngradeSince { reader_id, new_since } => {
            if s.leased_readers.contains_key(reader_id) {
                let r = s.leased_readers[reader_id];
                assert(s.leased_readers.insert(reader_id, r) =~= s.leased_readers);
                lemma_with_held_since_unchanged(s);
            }
        },
        TransitionView::ExpireWriter { writer_id } => {
            assert(s.writers.remove(writer_id) =~= s.writers);
        },
        TransitionView::ExpireLeasedReader { reader_id } => {
            assert(s.leased_readers.remove(reader_id) =~= s.leased_readers);
            lemma_with_held_since_unchanged(s);
        },
        TransitionView::ExpireCriticalReader { reader_id } => {
            assert(s.critical_readers.remove(reader_id) =~= s.critical_readers);
            lemma_with_held_since_unchanged(s);
        },
        _ => {},
    }
}

/// In a well-formed state the since is the one that the capabilities give.
pub proof fn lemma_with_held_since_unchanged(s: StateView)
    requires
        s.wf(),
    ensures
        s.with_held_since() == s,
{
    lemma_held_since(s.capabilities(), s.since);
    if exists|c: Seq<u64>| s.capabilities().contains(c) {
        lemma_meet_unique(s.since, held_since(s.capabilities(), s.since), s.capabilities());
    }
}

/// Every operation keeps the state well formed, whether it makes a new version
/// or not; its trace tiles the times before its upper. The since and the upper
/// do not go back. The version goes up by one where the operation changes
/// something. Where the since and the capabilities were at or before the upper,
/// they are so afterwards, unless the operation asked for a capability beyond it.
pub proof fn lemma_step(s: StateView, t: TransitionView)
    requires
        s.wf(),
        t.well_formed(),
        s.seqno < u64::MAX,
    ensures
        t.step(s).wf(),
        tiles(t.step(s).trace, t.step(s).upper),
        frontier_le(s.since, t.step(s).since),
        frontier_le(s.upper, t.step(s).upper),
        t.changes(s) ==> t.step(s).seqno == s.seqno + 1,
        !t.changes(s) ==> t.step(s) == s,
        t.step(s).shard_id == s.shard_id,
        t.step(s).codecs == s.codecs,
        s.since_within_upper() && t.within_upper(s) ==> t.step(s).since_within_upper(),
{
    lemma_frontier_le_preorder(s.since, s.since, s.since);
    lemma_frontier_le_preorder(s.upper, s.upper, s.upper);
    let a = t.apply(s);
    match t {
        TransitionView::RegisterWriter { writer_id, lease_duration, now } => {
            lemma_register_writer(s, writer_id, lease_duration, now);
        },
        TransitionView::RegisterLeasedReader { reader_id, lease_duration, now } => {
            lemma_register_leased_reader(s, reader_id, lease_duration, now);
        },
        TransitionView::RegisterCriticalReader { reader_id } => {
            lemma_register_critical_reader(s, reader_id);
        },
        TransitionView::CompareAndAppend { writer_id, batch, expected_lower, new_upper, now } => {
            lemma_compare_and_append(s, writer_id, batch, expected_lower, new_upper, now);
        },
        TransitionView::HeartbeatWriter { writer_id, now } => {
            lemma_heartbeat_writer(s, writer_id, now);
        },
        TransitionView::HeartbeatLeasedReader { reader_id, now } => {
            lemma_heartbeat_leased_reader(s, reader_id, now);
        },
        TransitionView::DowngradeSince { reader_id, new_since } => {
            lemma_downgrade_since(s, reader_id, new_since);
        },
        TransitionView::CompareAndDowngradeSince {
            reader_id,
            expected_opaque,
            new_opaque,
            new_since,
        } => {
            lemma_compare_and_downgrade_since(
                s,
                reader_id,
                expected_opaque,
                new_opaque,
                new_since,
            );
        },
        TransitionView::ExpireWriter { writer_id } => {
            lemma_expire_writer(s, writer_id);
        },
        TransitionView::ExpireLeasedReader { reader_id } => {
            lemma_expire_leased_reader(s, reader_id);
        },
        TransitionView::ExpireCriticalReader { reader_id } => {
            lemma_expire_critical_reader(s, reader_id);
        },
        TransitionView::ApplyMergeRes { inputs, output } => {
            if s.merge_applies(inputs, output) {
                lemma_apply_merge_res(s, inputs, output, s.merge_position(inputs, output));
            }
        },
    }
    assert(a.wf());
    if t.changes(s) {
        let n = t.step(s);
        assert(n.capabilities() =~= a.capabilities());
    }
}

/// The successive versions of a shard that starts from a well-formed state: each
/// is well formed, so each trace tiles the times before the upper of its
/// version, and each version is one more than the one before it.
pub proof fn lemma_versions(versions: Seq<StateView>, i: int)
    requires
        versions.len() > 0,
        versions[0].wf(),
        forall|k: int|
            0 <= k < versions.len() - 1 ==> committed_after(
                #[trigger] versions[k],
                versions[k + 1],
            ),
        0 <= i < versions.len(),
    ensures
        versions[i].wf(),
        tiles(versions[i].trace, versions[i].upper),
        versions[i].seqno == versions[0].seqno + i,
        i > 0 ==> versions[i].seqno == versions[i - 1].seqno + 1,
        frontier_le(versions[0].since, versions[i].since),
        frontier_le(versions[0].upper, versions[i].upper),
    decreases i,
{
    lemma_frontier_le_preorder(versions[0].since, versions[0].since, versions[0].since);
    lemma_frontier_le_preorder(versions[0].upper, versions[0].upper, versions[0].upper);
    if i > 0 {
        lemma_versions(versions, i - 1);
        let prev = versions[i - 1];
        assert(committed_after(prev, versions[i - 1 + 1]));
        let t = choose|t: TransitionView|
            t.well_formed() && #[trigger] t.changes(prev) && prev.seqno < u64::MAX && versions[i]
                == t.step(prev);
        lemma_step(prev, t);
        lemma_frontier_le_preorder(versions[0].since, prev.since, versions[i].since);
        lemma_frontier_le_preorder(versions[0].upper, prev.upper, versions[i].upper);
    }
}

/// The successive versions of a shard whose since started at or before its
/// upper: in each the since is at or before the upper, as long as no reader asked
/// for a capability beyond the upper.
pub proof fn lemma_since_stays_within_upper(versions: Seq<StateView>, i: int)
    requires
        versions.len() > 0,
        versions[0].wf(),
        versions[0].since_within_upper(),
        forall|k: int|
            0 <= k < versions.len() - 1 ==> committed_within_upper(
                #[trigger] versions[k],
                versions[k + 1],
            ),
        0 <= i < versions.len(),
    ensures
        versions[i].wf(),
        versions[i].since_within_upper(),
        frontier_le(versions[i].since, versions[i].upper),
    decreases i,
{
    if i > 0 {
        lemma_since_stays_within_upper(versions, i - 1);
        let prev = versions[i - 1];
        assert(committed_within_upper(prev, versions[i - 1 + 1]));
        let t = choose|t: TransitionView|
            t.well_formed() && t.within_upper(prev) && #[trigger] t.changes(prev) && prev.seqno
                < u64::MAX && versions[i] == t.step(prev);
        lemma_step(prev, t);
    }
}


/// Registering a writer that is registered already only refreshes its lease: the
/// same writers are registered, the others are as they were, and nothing else
/// of the state changes. Doing it twice with the same inputs is doing it once.
pub proof fn lemma_register_writer_again(s: StateView, writer_id: Seq<u8>, lease_duration: u64, now: u64)
    requires
        s.writers.contains_key(writer_id),
    ensures
        s.register_writer(writer_id, lease_duration, now).writers.dom() == s.writers.dom(),
        s.register_writer(writer_id, lease_duration, now).writers[writer_id] == (WriterState {
            lease_deadline: lease_end(now, lease_duration),
            last_heartbeat: now,
        }),
        forall|k: Seq<u8>|
            k != writer_id && s.writers.contains_key(k) ==> s.register_writer(
                writer_id,
                lease_duration,
                now,
            ).writers[k] == #[trigger] s.writers[k],
        s.register_writer(writer_id, lease_duration, now) == (StateView {
            writers: s.register_writer(writer_id, lease_duration, now).writers,
            ..s
        }),
        s.register_writer(writer_id, lease_duration, now).register_writer(
            writer_id,
            lease_duration,
            now,
        ) == s.register_writer(writer_id, lease_duration, now),
{
    let t = s.register_writer(writer_id, lease_duration, now);
    assert(t.writers.dom() =~= s.writers.dom());
    assert(t.register_writer(writer_id, lease_duration, now).writers =~= t.writers);
}

/// Registering a leased reader that is registered already only refreshes its
/// lease: it keeps its capability, the same readers are registered, the others
/// are as they were, and nothing else of the state changes. Doing it twice
/// with the same inputs is doing it once.
pub proof fn lemma_register_leased_reader_again(
    s: StateView,
    reader_id: Seq<u8>,
    lease_duration: u64,
    now: u64,
)
    requires
        s.leased_readers.contains_key(reader_id),
    ensures
        s.register_leased_reader(reader_id, lease_duration, now).leased_readers.dom()
            == s.leased_readers.dom(),
        s.register_leased_reader(reader_id, lease_duration, now).leased_readers[reader_id].since
            == s.leased_readers[reader_id].since,
        s.register_leased_reader(
            reader_id,
            lease_duration,
            now,
        ).leased_readers[reader_id].lease_deadline == lease_end(now, lease_duration),
        s.register_leased_reader(
            reader_id,
            lease_duration,
            now,
        ).leased_readers[reader_id].last_heartbeat == now,
        forall|k: Seq<u8>|
            k != reader_id && s.leased_readers.contains_key(k) ==> s.register_leased_reader(
                reader_id,
                lease_duration,
                now,
            ).leased_readers[k] == #[trigger] s.leased_readers[k],
        s.register_leased_reader(reader_id, lease_duration, now) == (StateView {
            leased_readers: s.register_leased_reader(reader_id, lease_duration, now).leased_readers,
            ..s
        }),
        s.register_leased_reader(reader_id, lease_duration, now).capabilities()
            == s.capabilities(),
        s.register_leased_reader(reader_id, lease_duration, now).register_leased_reader(
            reader_id,
            lease_duration,
            now,
        ) == s.register_leased_reader(reader_id, lease_duration, now),
{
    let t = s.register_leased_reader(reader_id, lease_duration, now);
    assert(t.leased_readers.dom() =~= s.leased_readers.dom());
    assert(t.register_leased_reader(reader_id, lease_duration, now).leased_readers
        =~= t.leased_readers);
    lemma_capabilities_leased_written(s, t, reader_id);
    assert(s.capabilities().contains(s.leased_readers[reader_id].since));
    assert(t.capabilities() =~= s.capabilities());
}

/// Registering a critical reader that is registered already changes nothing.
pub proof fn lemma_register_critical_reader_again(s: StateView, reader_id: Seq<u8>)
    ensures
        s.register_critical_reader(reader_id).register_critical_reader(reader_id)
            == s.register_critical_reader(reader_id),
        s.critical_readers.contains_key(reader_id) ==> s.register_critical_reader(reader_id) == s,
{
}

/// Capabilities only move forward: after a reader moved its capability to `x`,
/// asking to move it to a `y` before `x` changes nothing. The capability stays
/// where the first request left it, which is `x` where `x` was at or beyond it.
pub proof fn lemma_downgrade_since_monotone(s: StateView, reader_id: Seq<u8>, x: Seq<u64>, y: Seq<u64>)
    requires
        s.wf(),
        s.leased_readers.contains_key(reader_id),
        is_antichain(x),
        is_antichain(y),
        frontier_le(y, x),
        y != x,
    ensures
        s.downgrade_since(reader_id, x).downgrade_since(reader_id, y) == s.downgrade_since(
            reader_id,
            x,
        ),
        s.downgrade_since(reader_id, x).leased_readers.contains_key(reader_id),
        frontier_le(s.leased_readers[reader_id].since, x) ==> s.downgrade_since(
            reader_id,
            x,
        ).leased_readers[reader_id].since == x,
        frontier_le(
            s.leased_readers[reader_id].since,
            s.downgrade_since(reader_id, x).leased_readers[reader_id].since,
        ),
{
    let s1 = s.downgrade_since(reader_id, x);
    let cap = s.leased_readers[reader_id].since;
    assert(s.capabilities().contains(cap));
    lemma_downgrade_since(s, reader_id, x);
    lemma_downgraded(cap, x);
    let cap1 = s1.leased_readers[reader_id].since;
    assert(cap1 == downgraded(cap, x));
    if frontier_le(cap1, y) {
        lemma_frontier_le_preorder(x, cap1, y);
        lemma_frontier_le_antisymmetric(x, y);
    }
    assert(downgraded(cap1, y) == cap1);
    lemma_no_change(s1, TransitionView::DowngradeSince { reader_id, new_since: y });
}


/// The result of a compaction can take the place of its inputs at one index only.
pub proof fn lemma_merge_applies_once(s: StateView, inputs: Seq<BatchView>, output: BatchView, at: int)
    requires
        s.wf(),
        s.merge_applies_at(inputs, output, at),
    ensures
        s.merge_applies(inputs, output),
        s.merge_position(inputs, output) == at,
{
    lemma_run_at_unique(s.trace, s.upper, inputs, at, s.merge_position(inputs, output));
}


/// Whether the since of a state is the one that its capabilities give can be
/// told from the least of the capabilities: the since has to be that one.
pub proof fn lemma_since_is_held(s: StateView, least: Option<Seq<u64>>)
    requires
        is_antichain(s.since),
        forall|c: Seq<u64>| #[trigger] s.capabilities().contains(c) ==> is_antichain(c),
        match least {
            Some(m) => s.capabilities().contains(m) && lower_bound(m, s.capabilities()),
            None => forall|c: Seq<u64>| !s.capabilities().contains(c),
        },
    ensures
        s.since_is_held() == (match least {
            Some(m) => m == s.since,
            None => true,
        }),
{
    let caps = s.capabilities();
    let since = s.since;
    lemma_frontier_le_preorder(since, since, since);
    match least {
        Some(m) => {
            assert(is_meet_of(m, caps));
            if m == since {
                assert forall|c: Seq<u64>| caps.insert(since).contains(c) implies frontier_le(
                    since,
                    c,
                ) by {}
                assert forall|g: Seq<u64>| lower_bound(g, caps.insert(since)) implies frontier_le(
                    g,
                    since,
                ) by {
                    assert(caps.insert(since).contains(since));
                }
            } else if s.since_is_held() {
                assert(is_meet_of(since, caps));
                lemma_meet_unique(m, since, caps);
            }
        },
        None => {
            assert forall|c: Seq<u64>| caps.insert(since).contains(c) implies frontier_le(
                since,
                c,
            ) by {}
            assert forall|g: Seq<u64>| lower_bound(g, caps.insert(since)) implies frontier_le(
                g,
                since,
            ) by {
                assert(caps.insert(since).contains(since));
            }
        },
    }
}

} // verus!
