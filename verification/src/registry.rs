//! A small map from sixteen-byte identifiers to registrations.
//!
//! The entries are kept in the order in which they were first registered. No
//! identifier occurs twice.

use crate::ids::same_bytes;
use vstd::prelude::*;

verus! {

/// The registrations of one kind of participant, by identifier.
#[derive(Debug)]
pub struct Registry<V> {
    keys: Vec<[u8; 16]>,
    values: Vec<V>,
}

impl<V> Registry<V> {
    /// The identifiers, in the order of registration.
    pub closed spec fn keys(&self) -> Seq<Seq<u8>> {
        Seq::new(self.keys@.len(), |i: int| self.keys@[i]@)
    }

    /// The registrations, each at the index of its identifier.
    pub closed spec fn values(&self) -> Seq<V> {
        self.values@
    }

    /// There is one registration for each identifier, and no identifier occurs twice.
    pub open spec fn wf(&self) -> bool {
        &&& self.keys().len() == self.values().len()
        &&& forall|i: int, j: int|
            0 <= i < self.keys().len() && 0 <= j < self.keys().len() && i != j
                ==> self.keys()[i] != self.keys()[j]
    }

    /// The registry as a map from identifier to registration.
    pub open spec fn map(&self) -> Map<Seq<u8>, V> {
        Map::new(
            |k: Seq<u8>| self.keys().contains(k),
            |k: Seq<u8>| self.values()[self.keys().index_of(k)],
        )
    }

    /// Each entry of the sequences is an entry of the map, and the other way round.
    pub proof fn lemma_entries(&self)
        requires
            self.wf(),
        ensures
            forall|i: int|
                0 <= i < self.keys().len() ==> self.map().contains_key(#[trigger] self.keys()[i])
                    && self.map()[self.keys()[i]] == self.values()[i],
            forall|k: Seq<u8>| #[trigger]
                self.map().contains_key(k) ==> 0 <= self.keys().index_of(k) < self.keys().len()
                    && self.keys()[self.keys().index_of(k)] == k,
            self.map().dom().finite(),
            self.map().dom().len() == self.keys().len(),
    {
        let keys = self.keys();
        assert forall|i: int| 0 <= i < keys.len() implies self.map().contains_key(
            #[trigger] keys[i],
        ) && self.map()[keys[i]] == self.values()[i] by {
            assert(keys.contains(keys[i]));
            let j = keys.index_of(keys[i]);
            assert(0 <= j < keys.len() && keys[j] == keys[i]);
        }
        assert forall|k: Seq<u8>| #[trigger] self.map().contains_key(k) implies 0
            <= keys.index_of(k) < keys.len() && keys[keys.index_of(k)] == k by {
            assert(keys.contains(k));
        }
        assert(keys.no_duplicates());
        keys.unique_seq_to_set();
        assert(self.map().dom() =~= keys.to_set());
    }

    /// No identifier occurs twice among the identifiers.
    pub proof fn lemma_keys_distinct(&self)
        requires
            self.wf(),
        ensures
            forall|a: int, b: int|
                0 <= a < b < self.keys().len() ==> self.keys()[a] != self.keys()[b],
    {
    }

    /// A registry without entries.
    pub fn new() -> (r: Registry<V>)
        ensures
            r.wf(),
            r.map() == Map::<Seq<u8>, V>::empty(),
            r.keys().len() == 0,
    {
        let r = Registry { keys: Vec::new(), values: Vec::new() };
        proof {
            assert(r.map() =~= Map::<Seq<u8>, V>::empty());
        }
        r
    }

    /// The number of entries.
    pub fn len(&self) -> (n: usize)
        requires
            self.wf(),
        ensures
            n == self.keys().len(),
            n == self.map().dom().len(),
    {
        proof {
            self.lemma_entries();
        }
        self.keys.len()
    }

    /// The index at which an identifier is registered.
    pub fn position(&self, key: &[u8; 16]) -> (at: Option<usize>)
        requires
            self.wf(),
        ensures
            match at {
                Some(i) => i < self.keys().len() && self.keys()[i as int] == key@
                    && self.map().contains_key(key@) && self.map()[key@] == self.values()[i as int],
                None => !self.map().contains_key(key@),
            },
    {
        let mut i: usize = 0;
        while i < self.keys.len()
            invariant
                self.wf(),
                i <= self.keys.len(),
                forall|j: int| 0 <= j < i ==> self.keys()[j] != key@,
            decreases self.keys.len() - i,
        {
            if same_bytes(&self.keys[i], key) {
                proof {
                    self.lemma_entries();
                    assert(self.keys()[i as int] == key@);
                }
                return Some(i);
            }
            i += 1;
        }
        proof {
            if self.keys().contains(key@) {
                let j = self.keys().index_of(key@);
                assert(self.keys()[j] == key@);
            }
        }
        None
    }

    /// Whether the identifier is registered.
    pub fn contains(&self, key: &[u8; 16]) -> (found: bool)
        requires
            self.wf(),
        ensures
            found == self.map().contains_key(key@),
    {
        self.position(key).is_some()
    }

    /// The registration of an identifier.
    pub fn get(&self, key: &[u8; 16]) -> (found: Option<&V>)
        requires
            self.wf(),
        ensures
            match found {
                Some(v) => self.map().contains_key(key@) && *v == self.map()[key@],
                None => !self.map().contains_key(key@),
            },
    {
        match self.position(key) {
            Some(i) => Some(&self.values[i]),
            None => None,
        }
    }

    /// The identifier at an index.
    pub fn key_at(&self, i: usize) -> (key: [u8; 16])
        requires
            self.wf(),
            i < self.keys().len(),
        ensures
            key@ == self.keys()[i as int],
            self.map().contains_key(key@),
            self.map()[key@] == self.values()[i as int],
    {
        proof {
            self.lemma_entries();
        }
        self.keys[i]
    }

    /// The registration at an index.
    pub fn value_at(&self, i: usize) -> (value: &V)
        requires
            self.wf(),
            i < self.keys().len(),
        ensures
            *value == self.values()[i as int],
            self.map().contains_key(self.keys()[i as int]),
            self.map()[self.keys()[i as int]] == *value,
    {
        proof {
            self.lemma_entries();
        }
        &self.values[i]
    }

    /// Registers `value` under `key`, in place of what was registered under it.
    pub fn insert(&mut self, key: [u8; 16], value: V)
        requires
            old(self).wf(),
        ensures
            final(self).wf(),
            final(self).map() == old(self).map().insert(key@, value),
    {
        match self.position(&key) {
            Some(i) => {
                self.values.set(i, value);
                proof {
                    assert(self.keys() == old(self).keys());
                    assert forall|k: Seq<u8>| #[trigger] self.map().contains_key(k) implies self.map()[k]
                        == old(self).map().insert(key@, value)[k] by {
                        let j = self.keys().index_of(k);
                        assert(self.keys().contains(k));
                        assert(self.keys()[j] == k);
                        if k == key@ {
                            assert(j == i);
                        } else {
                            assert(j != i);
                        }
                    }
                    assert(self.map() =~= old(self).map().insert(key@, value));
                }
            },
            None => {
                self.keys.push(key);
                self.values.push(value);
                proof {
                    let n = old(self).keys().len() as int;
                    assert(self.keys() =~= old(self).keys().push(key@));
                    assert forall|k: Seq<u8>| old(self).map().insert(key@, value).contains_key(
                        k,
                    ) implies #[trigger] self.map().contains_key(k) by {
                        if k == key@ {
                            assert(self.keys()[n] == k);
                        } else {
                            assert(old(self).keys().contains(k));
                            let j = old(self).keys().index_of(k);
                            assert(self.keys()[j] == k);
                        }
                    }
                    assert forall|k: Seq<u8>| #[trigger] self.map().contains_key(k) implies old(
                        self,
                    ).map().insert(key@, value).contains_key(k) && self.map()[k] == old(
                        self,
                    ).map().insert(key@, value)[k] by {
                        assert(self.keys().contains(k));
                        let j = self.keys().index_of(k);
                        assert(self.keys()[j] == k);
                        if j < n {
                            assert(old(self).keys()[j] == k);
                            assert(old(self).keys().contains(k));
                            let j2 = old(self).keys().index_of(k);
                            assert(old(self).keys()[j2] == k);
                            assert(j2 == j);
                        }
                    }
                    assert(self.map() =~= old(self).map().insert(key@, value));
                }
            },
        }
    }

    /// Registers `value` under `key` unless something is registered under it, and
    /// says whether it did.
    pub fn insert_new(&mut self, key: [u8; 16], value: V) -> (added: bool)
        requires
            old(self).wf(),
        ensures
            final(self).wf(),
            added == !old(self).map().contains_key(key@),
            final(self).map() == (if added {
                old(self).map().insert(key@, value)
            } else {
                old(self).map()
            }),
    {
        if self.contains(&key) {
            false
        } else {
            self.insert(key, value);
            true
        }
    }

    /// Takes out what is registered under `key`, if anything is.
    pub fn remove(&mut self, key: &[u8; 16]) -> (removed: Option<V>)
        requires
            old(self).wf(),
        ensures
            final(self).wf(),
            final(self).map() == old(self).map().remove(key@),
            match removed {
                Some(v) => old(self).map().contains_key(key@) && v == old(self).map()[key@],
                None => !old(self).map().contains_key(key@),
            },
    {
        match self.position(key) {
            Some(i) => {
                self.keys.remove(i);
                let value = self.values.remove(i);
                proof {
                    let before = old(self).keys();
                    assert(self.keys() =~= before.remove(i as int));
                    assert(self.values() =~= old(self).values().remove(i as int));
                    assert forall|a: int, b: int|
                        0 <= a < self.keys().len() && 0 <= b < self.keys().len() && a != b implies self.keys()[a]
                        != self.keys()[b] by {
                        let a2 = if a < i { a } else { a + 1 };
                        let b2 = if b < i { b } else { b + 1 };
                        assert(self.keys()[a] == before[a2]);
                        assert(self.keys()[b] == before[b2]);
                    }
                    assert forall|k: Seq<u8>| old(self).map().remove(key@).contains_key(
                        k,
                    ) implies #[trigger] self.map().contains_key(k) by {
                        assert(before.contains(k));
                        let j = before.index_of(k);
                        assert(before[j] == k);
                        assert(j != i);
                        let j2 = if j < i { j } else { j - 1 };
                        assert(self.keys()[j2] == k);
                    }
                    assert forall|k: Seq<u8>| #[trigger] self.map().contains_key(k) implies old(
                        self,
                    ).map().remove(key@).contains_key(k) && self.map()[k] == old(self).map()[k] by {
                        assert(self.keys().contains(k));
                        let j = self.keys().index_of(k);
                        assert(self.keys()[j] == k);
                        let j2 = if j < i { j } else { j + 1 };
                        assert(before[j2] == k);
                        assert(before.contains(k));
                        let j3 = before.index_of(k);
                        assert(before[j3] == k);
                        assert(j3 == j2);
                    }
                    assert(self.map() =~= old(self).map().remove(key@));
                }
                Some(value)
            },
            None => {
                proof {
                    assert(self.map() =~= old(self).map().remove(key@));
                }
                None
            },
        }
    }
}

} // verus!
