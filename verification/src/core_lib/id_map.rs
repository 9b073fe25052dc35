//! Maps keyed by 128-bit identifiers: a `HashMap` of the values, with the
//! keys also kept in the order they were first stored.

use vstd::prelude::*;
use std::collections::HashMap;

verus! {

broadcast use vstd::std_specs::hash::group_hash_axioms;

/// A map from identifiers to values.
#[derive(Debug)]
pub struct IdMap<V> {
    map: HashMap<u128, V>,
    keys: Vec<u128>,
}

impl<V> View for IdMap<V> {
    type V = Map<u128, V>;

    closed spec fn view(&self) -> Map<u128, V> {
        self.map@
    }
}

impl<V> IdMap<V> {
    /// The keys kept in order are the map's keys, each once.
    pub closed spec fn wf(&self) -> bool {
        &&& self.keys@.no_duplicates()
        &&& forall|k: u128| self.map@.contains_key(k) <==> #[trigger] self.keys@.contains(k)
    }

    /// Keys in storage order.
    pub closed spec fn key_seq(&self) -> Seq<u128> {
        self.keys@
    }

    /// The stored keys are exactly the map's keys, each once.
    pub proof fn lemma_keys(&self)
        requires
            self.wf(),
        ensures
            self.key_seq().len() == self.len_spec(),
            self.key_seq().no_duplicates(),
            forall|k: u128| self@.contains_key(k) <==> self.key_seq().contains(k),
            self@.dom().finite(),
            self@.dom().len() == self.len_spec(),
    {
        assert(self@.dom() =~= self.keys@.to_set());
        self.keys@.unique_seq_to_set();
    }

    /// Number of entries.
    pub closed spec fn len_spec(&self) -> nat {
        self.keys@.len()
    }

    /// An empty map.
    pub fn new() -> (m: Self)
        ensures
            m.wf(),
            m@ == Map::<u128, V>::empty(),
            m.len_spec() == 0,
    {
        IdMap { map: HashMap::new(), keys: Vec::new() }
    }

    /// Number of entries.
    pub fn len(&self) -> (n: usize)
        ensures
            n == self.len_spec(),
    {
        self.keys.len()
    }

    /// Key of the `i`-th stored entry.
    pub fn key_at(&self, i: usize) -> (k: u128)
        requires
            self.wf(),
            i < self.len_spec(),
        ensures
            k == self.key_seq()[i as int],
            self@.contains_key(k),
    {
        let k = self.keys[i];
        assert(self.keys@.contains(k));
        k
    }

    /// Value of the `i`-th stored entry.
    pub fn value_at(&self, i: usize) -> (v: &V)
        requires
            self.wf(),
            i < self.len_spec(),
        ensures
            self@.contains_key(self.key_seq()[i as int]),
            *v == self@[self.key_seq()[i as int]],
    {
        let k = self.keys[i];
        assert(self.keys@.contains(k));
        self.map.get(&k).unwrap()
    }

    /// Value under `key`, if any.
    pub fn get(&self, key: u128) -> (r: Option<&V>)
        requires
            self.wf(),
        ensures
            r == (if self@.contains_key(key) {
                Some(&self@[key])
            } else {
                None
            }),
    {
        self.map.get(&key)
    }

    /// Whether `key` has a value.
    pub fn contains_key(&self, key: u128) -> (b: bool)
        requires
            self.wf(),
        ensures
            b == self@.contains_key(key),
    {
        self.map.contains_key(&key)
    }

    /// Stores `v` under `key`, replacing any value there; a new key goes
    /// last in the storage order.
    pub fn insert(&mut self, key: u128, v: V)
        requires
            old(self).wf(),
        ensures
            final(self).wf(),
            final(self)@ == old(self)@.insert(key, v),
    {
        if !self.map.contains_key(&key) {
            let ghost before = self.keys@;
            self.keys.push(key);
            proof {
                assert(!before.contains(key));
                assert forall|a: int, b: int| 0 <= a < self.keys@.len() && 0 <= b < self.keys@.len() && a != b
                    implies self.keys@[a] != self.keys@[b] by {
                    if a == before.len() {
                        assert(before[b] == self.keys@[b]);
                    } else if b == before.len() {
                        assert(before[a] == self.keys@[a]);
                    }
                }
            }
        }
        let _ = self.map.insert(key, v);
        proof {
            assert forall|k: u128| self.map@.contains_key(k) <==> #[trigger] self.keys@.contains(k) by {
                if k != key && old(self).keys@.contains(k) {
                    let j = choose|j: int| 0 <= j < old(self).keys@.len() && old(self).keys@[j] == k;
                    assert(self.keys@[j] == k);
                }
                if self.keys@.contains(k) && k != key {
                    let j = choose|j: int| 0 <= j < self.keys@.len() && self.keys@[j] == k;
                    if j < old(self).keys@.len() {
                        assert(old(self).keys@[j] == k);
                    }
                }
                if k == key {
                    if old(self).keys@.contains(k) {
                        let j = choose|j: int| 0 <= j < old(self).keys@.len() && old(self).keys@[j] == k;
                        assert(self.keys@[j] == k);
                    } else {
                        assert(self.keys@.last() == k);
                    }
                }
            }
        }
    }

    /// Takes `key` out of the storage order.
    fn drop_key(&mut self, key: u128)
        requires
            old(self).keys@.no_duplicates(),
        ensures
            final(self).keys@.no_duplicates(),
            forall|k: u128| #[trigger] final(self).keys@.contains(k) <==> old(self).keys@.contains(k) && k != key,
            final(self).map == old(self).map,
    {
        let mut i: usize = 0;
        while i < self.keys.len()
            invariant
                self.keys@ == old(self).keys@,
                self.keys@.no_duplicates(),
                self.map == old(self).map,
                i <= self.keys@.len(),
                forall|j: int| 0 <= j < i ==> self.keys@[j] != key,
            decreases self.keys@.len() - i,
        {
            if self.keys[i] == key {
                let ghost before = self.keys@;
                self.keys.remove(i);
                proof {
                    assert(self.keys@ =~= before.remove(i as int));
                    assert(before[i as int] == key);
                    assert forall|a: int, b: int| 0 <= a < self.keys@.len() && 0 <= b < self.keys@.len() && a != b
                        implies self.keys@[a] != self.keys@[b] by {
                        let a2 = if a < i { a } else { a + 1 };
                        let b2 = if b < i { b } else { b + 1 };
                        assert(self.keys@[a] == before[a2]);
                        assert(self.keys@[b] == before[b2]);
                    }
                    assert forall|k: u128| #[trigger] self.keys@.contains(k) <==> before.contains(k) && k != key by {
                        if self.keys@.contains(k) {
                            let j = choose|j: int| 0 <= j < self.keys@.len() && self.keys@[j] == k;
                            if j < i {
                                assert(before[j] == k);
                                assert(before[j] != before[i as int]);
                            } else {
                                assert(before[j + 1] == k);
                                assert(j + 1 != i);
                                assert(before[j + 1] != before[i as int]);
                            }
                        }
                        if before.contains(k) && k != key {
                            let j = choose|j: int| 0 <= j < before.len() && before[j] == k;
                            assert(j != i);
                            if j < i {
                                assert(self.keys@[j] == k);
                            } else {
                                assert(self.keys@[j - 1] == k);
                            }
                        }
                    }
                }
                return;
            }
            i = i + 1;
        }
        assert forall|k: u128| #[trigger] self.keys@.contains(k) <==> old(self).keys@.contains(k) && k != key by {
            if self.keys@.contains(k) {
                let j = choose|j: int| 0 <= j < self.keys@.len() && self.keys@[j] == k;
                assert(self.keys@[j] != key);
            }
        }
    }

    /// Removes `key` and its value, if present.
    pub fn remove(&mut self, key: u128)
        requires
            old(self).wf(),
        ensures
            final(self).wf(),
            final(self)@ == old(self)@.remove(key),
    {
        let _ = self.map.remove(&key);
        self.drop_key(key);
    }

    /// Removes `key` and returns its value, if present.
    pub fn take(&mut self, key: u128) -> (r: Option<V>)
        requires
            old(self).wf(),
        ensures
            final(self).wf(),
            final(self)@ == old(self)@.remove(key),
            r == (if old(self)@.contains_key(key) {
                Some(old(self)@[key])
            } else {
                None
            }),
    {
        let r = self.map.remove(&key);
        self.drop_key(key);
        r
    }
}

} // verus!
