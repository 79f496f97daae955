//! Frontiers: sets of mutually incomparable timestamps that mark how far a shard
//! has progressed.
//!
//! A frontier is kept in a `timely::progress::Antichain`. The empty frontier is the
//! greatest one: no timestamp lies at or beyond it. All comparisons are the
//! element-wise ones of a partial order, although timestamps here are `u64`.

use timely::progress::Antichain;
use vstd::prelude::*;

verus! {

/// `timely::progress::Antichain`, a set of mutually incomparable elements.
#[verifier::external_type_specification]
#[verifier::external_body]
#[verifier::reject_recursive_types(T)]
pub struct ExAntichain<T>(Antichain<T>);

/// The elements that an antichain holds, in the order in which it keeps them.
pub uninterp spec fn elements_of(a: Antichain<u64>) -> Seq<u64>;

/// No element is at or beyond another one.
pub open spec fn is_antichain(s: Seq<u64>) -> bool {
    forall|i: int, j: int| 0 <= i < s.len() && 0 <= j < s.len() && i != j ==> !(s[i] <= s[j])
}

/// Some element of the frontier is at or before `t`: the time `t` is not yet closed.
pub open spec fn reaches(s: Seq<u64>, t: u64) -> bool {
    exists|i: int| 0 <= i < s.len() && s[i] <= t
}

/// The order of frontiers: every element of `b` is at or beyond some element of `a`.
pub open spec fn frontier_le(a: Seq<u64>, b: Seq<u64>) -> bool {
    forall|j: int| 0 <= j < b.len() ==> reaches(a, #[trigger] b[j])
}

/// Both frontiers have as many elements, and each element of `a` occurs in `b`.
pub open spec fn same_elements(a: Seq<u64>, b: Seq<u64>) -> bool {
    a.len() == b.len() && forall|i: int| 0 <= i < a.len() ==> b.contains(#[trigger] a[i])
}

/// The frontier after `t` is offered to it: unchanged where it reaches `t` already,
/// else without the elements at or beyond `t`, and with `t` at the end.
pub open spec fn inserted(s: Seq<u64>, t: u64) -> Seq<u64> {
    if reaches(s, t) {
        s
    } else {
        s.filter(|x: u64| !(t <= x)).push(t)
    }
}

/// The greatest frontier at or before both: the elements of `b` offered to `a` in turn.
pub open spec fn meet(a: Seq<u64>, b: Seq<u64>) -> Seq<u64>
    decreases b.len(),
{
    if b.len() == 0 {
        a
    } else {
        inserted(meet(a, b.drop_last()), b.last())
    }
}

/// The least time that is at or after `ts` and at or after each of `elements`.
pub open spec fn joined(ts: u64, elements: Seq<u64>) -> u64
    decreases elements.len(),
{
    if elements.len() == 0 {
        ts
    } else {
        let before = joined(ts, elements.drop_last());
        if before <= elements.last() {
            elements.last()
        } else {
            before
        }
    }
}

/// Calls `Antichain::new`.
///
/// Trusted: the new antichain holds no element.
#[verifier::external_body]
fn antichain_new() -> (a: Antichain<u64>)
    ensures
        elements_of(a) == Seq::<u64>::empty(),
{
    Antichain::new()
}

/// Calls `Antichain::from_elem`.
///
/// Trusted: the new antichain holds `t` and nothing else.
#[verifier::external_body]
fn antichain_from_elem(t: u64) -> (a: Antichain<u64>)
    ensures
        elements_of(a) == seq![t],
{
    Antichain::from_elem(t)
}

/// Calls `Antichain::elements` and copies the slice.
///
/// Trusted: the elements come out as the antichain keeps them.
#[verifier::external_body]
fn antichain_elements(a: &Antichain<u64>) -> (v: Vec<u64>)
    ensures
        v@ == elements_of(*a),
{
    a.elements().to_vec()
}

/// Calls `Antichain::insert`.
///
/// Trusted: where some element is at or before `t` nothing changes and `false`
/// comes back; else the elements at or beyond `t` leave, the others keep their
/// order, `t` is put at the end and `true` comes back.
#[verifier::external_body]
fn antichain_insert(a: &mut Antichain<u64>, t: u64) -> (added: bool)
    ensures
        added == !reaches(elements_of(*old(a)), t),
        elements_of(*final(a)) == inserted(elements_of(*old(a)), t),
{
    a.insert(t)
}

/// Calls `PartialOrder::less_equal` of `Antichain`.
///
/// Trusted: it holds where every element of `b` is at or beyond some element of `a`.
#[verifier::external_body]
fn antichain_less_equal(a: &Antichain<u64>, b: &Antichain<u64>) -> (le: bool)
    ensures
        le == frontier_le(elements_of(*a), elements_of(*b)),
{
    timely::PartialOrder::less_equal(a, b)
}

/// Calls `PartialEq::eq` of `Antichain`.
///
/// Trusted: it holds where both have as many elements and each element of `a`
/// occurs in `b`, whatever the order.
#[verifier::external_body]
fn antichain_eq(a: &Antichain<u64>, b: &Antichain<u64>) -> (eq: bool)
    ensures
        eq == same_elements(elements_of(*a), elements_of(*b)),
{
    a == b
}

/// Calls `Clone::clone` of `Antichain`.
///
/// Trusted: the copy holds the same elements in the same order.
#[verifier::external_body]
fn antichain_clone(a: &Antichain<u64>) -> (c: Antichain<u64>)
    ensures
        elements_of(c) == elements_of(*a),
{
    a.clone()
}

/// Timestamps are totally ordered, so an antichain of them has at most one element.
pub proof fn lemma_antichain_short(s: Seq<u64>)
    requires
        is_antichain(s),
    ensures
        s.len() <= 1,
{
    if s.len() >= 2 {
        if s[0] <= s[1] {
            assert(!(s[0] <= s[1]));
        } else {
            assert(!(s[1] <= s[0]));
        }
    }
}

/// What offering `t` to an antichain gives: the lesser of `t` and what was there.
pub proof fn lemma_inserted(s: Seq<u64>, t: u64)
    requires
        is_antichain(s),
    ensures
        is_antichain(inserted(s, t)),
        s.len() == 0 ==> inserted(s, t) == seq![t],
        s.len() == 1 ==> inserted(s, t) == seq![if s[0] <= t { s[0] } else { t }],
{
    lemma_antichain_short(s);
    let keep = |x: u64| !(t <= x);
    reveal_with_fuel(Seq::filter, 3);
    if s.len() == 0 {
        assert(!reaches(s, t));
        assert(s.filter(keep) =~= Seq::<u64>::empty());
        assert(inserted(s, t) =~= seq![t]);
    } else {
        if s[0] <= t {
            assert(reaches(s, t));
        } else {
            assert(!reaches(s, t));
            assert(s.drop_last() =~= Seq::<u64>::empty());
            assert(s.filter(keep) =~= Seq::<u64>::empty());
            assert(inserted(s, t) =~= seq![t]);
        }
    }
}

/// The meet of two antichains is an antichain: the lesser of their elements, and
/// the other one where one is empty.
pub proof fn lemma_meet(a: Seq<u64>, b: Seq<u64>)
    requires
        is_antichain(a),
        is_antichain(b),
    ensures
        is_antichain(meet(a, b)),
        b.len() == 0 ==> meet(a, b) == a,
        a.len() == 0 ==> meet(a, b) == b,
        a.len() == 1 && b.len() == 1 ==> meet(a, b) == seq![if a[0] <= b[0] { a[0] } else { b[0] }],
{
    lemma_antichain_short(a);
    lemma_antichain_short(b);
    reveal_with_fuel(meet, 3);
    if b.len() == 1 {
        assert(b.drop_last() =~= Seq::<u64>::empty());
        assert(meet(a, b.drop_last()) == a);
        lemma_inserted(a, b.last());
        if a.len() == 0 {
            assert(meet(a, b) =~= b);
        }
    } else {
        assert(a.len() == 0 ==> a =~= b);
    }
}

/// The meet is at or before both frontiers, and at or beyond every frontier that
/// is at or before both.
pub proof fn lemma_meet_is_greatest_lower_bound(a: Seq<u64>, b: Seq<u64>, c: Seq<u64>)
    requires
        is_antichain(a),
        is_antichain(b),
    ensures
        frontier_le(meet(a, b), a),
        frontier_le(meet(a, b), b),
        frontier_le(c, a) && frontier_le(c, b) ==> frontier_le(c, meet(a, b)),
{
    lemma_meet(a, b);
    lemma_antichain_short(a);
    lemma_antichain_short(b);
    let m = meet(a, b);
    assert forall|j: int| 0 <= j < a.len() implies reaches(m, #[trigger] a[j]) by {
        assert(m.len() == 1 && m[0] <= a[j]);
    }
    assert forall|j: int| 0 <= j < b.len() implies reaches(m, #[trigger] b[j]) by {
        assert(m.len() == 1 && m[0] <= b[j]);
    }
    if frontier_le(c, a) && frontier_le(c, b) {
        assert forall|j: int| 0 <= j < m.len() implies reaches(c, #[trigger] m[j]) by {
            if a.len() == 1 && (b.len() == 0 || a[0] <= b[0]) {
                assert(m[j] == a[0]);
            } else {
                assert(m[j] == b[0]);
            }
        }
    }
}

/// The order of frontiers is reflexive and transitive.
pub proof fn lemma_frontier_le_preorder(a: Seq<u64>, b: Seq<u64>, c: Seq<u64>)
    ensures
        frontier_le(a, a),
        frontier_le(a, b) && frontier_le(b, c) ==> frontier_le(a, c),
{
    assert forall|j: int| 0 <= j < a.len() implies reaches(a, #[trigger] a[j]) by {
        assert(a[j] <= a[j]);
    }
    if frontier_le(a, b) && frontier_le(b, c) {
        assert forall|j: int| 0 <= j < c.len() implies reaches(a, #[trigger] c[j]) by {
            assert(reaches(b, c[j]));
            let k = choose|k: int| 0 <= k < b.len() && b[k] <= c[j];
            assert(reaches(a, b[k]));
        }
    }
}

/// Antichains that are at or before each other are the same.
pub proof fn lemma_frontier_le_antisymmetric(a: Seq<u64>, b: Seq<u64>)
    requires
        is_antichain(a),
        is_antichain(b),
        frontier_le(a, b),
        frontier_le(b, a),
    ensures
        a == b,
{
    lemma_antichain_short(a);
    lemma_antichain_short(b);
    if a.len() == 1 {
        assert(reaches(b, a[0]));
    }
    if b.len() == 1 {
        assert(reaches(a, b[0]));
    }
    assert(a =~= b);
}

/// Of two antichains of timestamps one is at or before the other.
pub proof fn lemma_frontier_le_total(a: Seq<u64>, b: Seq<u64>)
    requires
        is_antichain(a),
        is_antichain(b),
    ensures
        frontier_le(a, b) || frontier_le(b, a),
{
    lemma_antichain_short(a);
    lemma_antichain_short(b);
    if a.len() == 1 && b.len() == 1 {
        if a[0] <= b[0] {
            assert forall|j: int| 0 <= j < b.len() implies reaches(a, #[trigger] b[j]) by {
                assert(a[0] <= b[j]);
            }
        } else {
            assert forall|j: int| 0 <= j < a.len() implies reaches(b, #[trigger] a[j]) by {
                assert(b[0] <= a[j]);
            }
        }
    }
}

/// A progress boundary of a shard: an antichain of timestamps.
#[derive(Debug, PartialEq, Eq)]
pub struct Frontier {
    elements: Antichain<u64>,
}

impl View for Frontier {
    type V = Seq<u64>;

    closed spec fn view(&self) -> Seq<u64> {
        elements_of(self.elements)
    }
}

impl Frontier {
    #[verifier::type_invariant]
    spec fn mutually_incomparable(&self) -> bool {
        is_antichain(elements_of(self.elements))
    }

    /// The elements of every frontier are mutually incomparable, so there is at
    /// most one of them.
    pub fn check_antichain(&self)
        ensures
            is_antichain(self@),
            self@.len() <= 1,
    {
        proof {
            use_type_invariant(self);
            lemma_antichain_short(self@);
        }
    }

    /// The empty frontier, beyond every timestamp.
    pub fn new() -> (f: Frontier)
        ensures
            f@ == Seq::<u64>::empty(),
    {
        Frontier { elements: antichain_new() }
    }

    /// The frontier of the single timestamp `t`.
    pub fn from_elem(t: u64) -> (f: Frontier)
        ensures
            f@ == seq![t],
    {
        Frontier { elements: antichain_from_elem(t) }
    }

    /// The frontier of the least timestamp, at which every shard starts.
    pub fn minimum() -> (f: Frontier)
        ensures
            f@ == seq![0u64],
    {
        Frontier::from_elem(0)
    }

    /// The elements of the frontier.
    pub fn elements(&self) -> (v: Vec<u64>)
        ensures
            v@ == self@,
    {
        antichain_elements(&self.elements)
    }

    /// The one element of the frontier, if it has one.
    pub fn as_option(&self) -> (t: Option<u64>)
        ensures
            match t {
                Some(t) => self@ == seq![t],
                None => self@ == Seq::<u64>::empty(),
            },
    {
        self.check_antichain();
        let v = self.elements();
        if v.len() == 0 {
            assert(self@ =~= Seq::<u64>::empty());
            None
        } else {
            assert(self@ =~= seq![v@[0]]);
            Some(v[0])
        }
    }

    /// A copy of the frontier.
    pub fn clone(&self) -> (f: Frontier)
        ensures
            f@ == self@,
    {
        proof {
            use_type_invariant(self);
        }
        Frontier { elements: antichain_clone(&self.elements) }
    }

    /// Whether both frontiers hold the same timestamps.
    pub fn eq(&self, other: &Frontier) -> (eq: bool)
        ensures
            eq == (self@ == other@),
    {
        self.check_antichain();
        other.check_antichain();
        let eq = antichain_eq(&self.elements, &other.elements);
        proof {
            if eq {
                if self@.len() == 1 {
                    assert(other@.contains(self@[0]));
                }
                assert(self@ =~= other@);
            }
            if self@ == other@ {
                assert forall|i: int| 0 <= i < self@.len() implies other@.contains(
                    #[trigger] self@[i],
                ) by {
                    assert(other@[i] == self@[i]);
                }
            }
        }
        eq
    }

    /// Whether this frontier is at or before `other`.
    pub fn less_equal(&self, other: &Frontier) -> (le: bool)
        ensures
            le == frontier_le(self@, other@),
    {
        antichain_less_equal(&self.elements, &other.elements)
    }

    /// Whether this frontier is before `other`: at or before it, and not the same.
    pub fn less_than(&self, other: &Frontier) -> (lt: bool)
        ensures
            lt == (frontier_le(self@, other@) && self@ != other@),
    {
        self.less_equal(other) && !self.eq(other)
    }

    /// Whether the frontier reaches `t`: some element of it is at or before `t`.
    pub fn less_equal_time(&self, t: u64) -> (le: bool)
        ensures
            le == reaches(self@, t),
    {
        match self.as_option() {
            Some(x) => {
                proof {
                    if x <= t {
                        assert(self@[0] <= t);
                    }
                }
                x <= t
            },
            None => false,
        }
    }

    /// Offers `t` to the frontier, and says whether it went in.
    pub fn insert(&mut self, t: u64) -> (added: bool)
        ensures
            added == !reaches(old(self)@, t),
            final(self)@ == inserted(old(self)@, t),
    {
        proof {
            use_type_invariant(&*self);
            lemma_inserted(self@, t);
        }
        let mut elements = antichain_clone(&self.elements);
        let added = antichain_insert(&mut elements, t);
        self.elements = elements;
        added
    }

    /// The greatest frontier that is at or before both.
    pub fn meet(&self, other: &Frontier) -> (m: Frontier)
        ensures
            m@ == meet(self@, other@),
    {
        let mut m = self.clone();
        let v = other.elements();
        let mut i: usize = 0;
        while i < v.len()
            invariant
                i <= v.len(),
                v@ == other@,
                m@ == meet(self@, other@.take(i as int)),
            decreases v.len() - i,
        {
            m.insert(v[i]);
            proof {
                assert(other@.take(i + 1).drop_last() =~= other@.take(i as int));
            }
            i += 1;
        }
        proof {
            assert(other@.take(i as int) =~= other@);
        }
        m
    }

    /// The least time that is at or after `ts` and at or after each element of
    /// the frontier: the time to which an update at `ts` advances once the
    /// frontier has passed it.
    pub fn join_time(&self, ts: u64) -> (at: u64)
        ensures
            at == joined(ts, self@),
            ts <= at,
            at == ts || self@.contains(at),
    {
        let elements = self.elements();
        let mut at = ts;
        let mut i: usize = 0;
        while i < elements.len()
            invariant
                i <= elements.len(),
                elements@ == self@,
                at == joined(ts, elements@.take(i as int)),
                ts <= at,
                at == ts || self@.contains(at),
            decreases elements.len() - i,
        {
            proof {
                assert(elements@.take(i + 1).drop_last() =~= elements@.take(i as int));
            }
            if at <= elements[i] {
                at = elements[i];
            }
            i += 1;
        }
        proof {
            assert(elements@.take(i as int) =~= elements@);
        }
        at
    }
}

} // verus!
