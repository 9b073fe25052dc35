//! Small maps and sets keyed by strings, kept as vectors of distinct keys.

use vstd::prelude::*;

verus! {

/// Some entry of `s` has key `k`.
pub open spec fn has_key<V>(s: Seq<(String, V)>, k: Seq<char>) -> bool {
    exists|i: int| 0 <= i < s.len() && (#[trigger] s[i]).0@ == k
}

/// No two entries of `s` share a key.
pub open spec fn distinct_keys<V>(s: Seq<(String, V)>) -> bool {
    forall|i: int, j: int|
        0 <= i < s.len() && 0 <= j < s.len() && i != j ==> (#[trigger] s[i]).0@ != (#[trigger] s[j]).0@
}

/// Value stored under `k` in `s`.
pub open spec fn value_at<V>(s: Seq<(String, V)>, k: Seq<char>) -> V {
    s[choose|i: int| 0 <= i < s.len() && (#[trigger] s[i]).0@ == k].1
}

/// Map that the entries `s` describe.
pub open spec fn entries_map<V>(s: Seq<(String, V)>) -> Map<Seq<char>, V> {
    Map::new(|k: Seq<char>| has_key(s, k), |k: Seq<char>| value_at(s, k))
}

/// With distinct keys, the map gives each entry's value under its key.
pub proof fn lemma_entry_in_map<V>(s: Seq<(String, V)>, i: int)
    requires
        distinct_keys(s),
        0 <= i < s.len(),
    ensures
        entries_map(s).contains_key(s[i].0@),
        entries_map(s)[s[i].0@] == s[i].1,
{
    let k = s[i].0@;
    assert(has_key(s, k));
    let j = choose|j: int| 0 <= j < s.len() && (#[trigger] s[j]).0@ == k;
    assert(j == i);
}

/// A map from strings to values.
#[derive(Debug, Clone)]
pub struct StrMap<V> {
    entries: Vec<(String, V)>,
}

impl<V> View for StrMap<V> {
    type V = Map<Seq<char>, V>;

    closed spec fn view(&self) -> Map<Seq<char>, V> {
        entries_map(self.entries@)
    }
}

impl<V> StrMap<V> {
    /// Keys are distinct.
    pub closed spec fn wf(&self) -> bool {
        distinct_keys(self.entries@)
    }

    /// Keys in storage order.
    pub closed spec fn key_seq(&self) -> Seq<Seq<char>> {
        self.entries@.map_values(|e: (String, V)| e.0@)
    }

    /// The stored keys are exactly the map's keys, each once.
    pub proof fn lemma_keys(&self)
        requires
            self.wf(),
        ensures
            self.key_seq().len() == self.len_spec(),
            self.key_seq().no_duplicates(),
            forall|k: Seq<char>| self@.contains_key(k) <==> self.key_seq().contains(k),
            self@.dom().finite(),
            self@.dom().len() == self.len_spec(),
    {
        let s = self.entries@;
        let ks = self.key_seq();
        assert forall|i: int, j: int| 0 <= i < ks.len() && 0 <= j < ks.len() && i != j implies ks[i] != ks[j] by {
            assert(ks[i] == s[i].0@);
            assert(ks[j] == s[j].0@);
        }
        assert forall|k: Seq<char>| self@.contains_key(k) <==> ks.contains(k) by {
            if self@.contains_key(k) {
                let i = choose|i: int| 0 <= i < s.len() && (#[trigger] s[i]).0@ == k;
                assert(ks[i] == k);
            }
            if ks.contains(k) {
                let i = choose|i: int| 0 <= i < ks.len() && ks[i] == k;
                assert(s[i].0@ == k);
            }
        }
        assert(self@.dom() =~= ks.to_set());
        ks.unique_seq_to_set();
    }

    /// Number of entries.
    pub closed spec fn len_spec(&self) -> nat {
        self.entries@.len()
    }

    /// An empty map.
    pub fn new() -> (m: Self)
        ensures
            m.wf(),
            m@ == Map::<Seq<char>, V>::empty(),
            m.len_spec() == 0,
    {
        let m = StrMap { entries: Vec::new() };
        assert(m@ =~= Map::<Seq<char>, V>::empty());
        m
    }

    /// Number of entries.
    pub fn len(&self) -> (n: usize)
        ensures
            n == self.len_spec(),
    {
        self.entries.len()
    }

    /// Key of the `i`-th stored entry.
    pub fn key_at(&self, i: usize) -> (k: &String)
        requires
            self.wf(),
            i < self.len_spec(),
        ensures
            k@ == self.key_seq()[i as int],
            self@.contains_key(k@),
    {
        proof {
            lemma_entry_in_map(self.entries@, i as int);
        }
        &self.entries[i].0
    }

    /// Value of the `i`-th stored entry.
    pub fn value_at(&self, i: usize) -> (v: V)
        where V: Copy
        requires
            self.wf(),
            i < self.len_spec(),
        ensures
            self@.contains_key(self.key_seq()[i as int]),
            v == self@[self.key_seq()[i as int]],
    {
        proof {
            lemma_entry_in_map(self.entries@, i as int);
        }
        self.entries[i].1
    }

    /// Reference to the value of the `i`-th stored entry.
    pub fn value_ref_at(&self, i: usize) -> (v: &V)
        requires
            self.wf(),
            i < self.len_spec(),
        ensures
            self@.contains_key(self.key_seq()[i as int]),
            *v == self@[self.key_seq()[i as int]],
    {
        proof {
            lemma_entry_in_map(self.entries@, i as int);
        }
        &self.entries[i].1
    }

    fn find(&self, key: &String) -> (r: Option<usize>)
        requires
            self.wf(),
        ensures
            match r {
                Some(i) => i < self.entries@.len() && self.entries@[i as int].0@ == key@,
                None => !self@.contains_key(key@),
            },
    {
        let mut i: usize = 0;
        while i < self.entries.len()
            invariant
                i <= self.entries@.len(),
                forall|j: int| 0 <= j < i ==> (#[trigger] self.entries@[j]).0@ != key@,
            decreases self.entries@.len() - i,
        {
            if self.entries[i].0 == *key {
                return Some(i);
            }
            i = i + 1;
        }
        None
    }

    /// Value stored under `key`, if any.
    pub fn get(&self, key: &String) -> (r: Option<V>)
        where V: Copy
        requires
            self.wf(),
        ensures
            r == (if self@.contains_key(key@) {
                Some(self@[key@])
            } else {
                None
            }),
    {
        match self.find(key) {
            Some(i) => {
                proof {
                    lemma_entry_in_map(self.entries@, i as int);
                }
                Some(self.entries[i].1)
            },
            None => None,
        }
    }

    /// Reference to the value stored under `key`, if any.
    pub fn get_ref(&self, key: &String) -> (r: Option<&V>)
        requires
            self.wf(),
        ensures
            r == (if self@.contains_key(key@) {
                Some(&self@[key@])
            } else {
                None
            }),
    {
        match self.find(key) {
            Some(i) => {
                proof {
                    lemma_entry_in_map(self.entries@, i as int);
                }
                Some(&self.entries[i].1)
            },
            None => None,
        }
    }

    /// Whether `key` has a value.
    pub fn contains_key(&self, key: &String) -> (b: bool)
        requires
            self.wf(),
        ensures
            b == self@.contains_key(key@),
    {
        match self.find(key) {
            Some(i) => {
                proof {
                    lemma_entry_in_map(self.entries@, i as int);
                }
                true
            },
            None => false,
        }
    }

    /// Stores `v` under `key`, replacing any earlier value.
    pub fn insert(&mut self, key: String, v: V)
        requires
            old(self).wf(),
        ensures
            final(self).wf(),
            final(self)@ == old(self)@.insert(key@, v),
    {
        let ghost k = key@;
        match self.find(&key) {
            Some(i) => {
                let ghost before = self.entries@;
                self.entries.set(i, (key, v));
                let ghost after = self.entries@;
                assert(distinct_keys(after)) by {
                    assert forall|a: int, b: int| 0 <= a < after.len() && 0 <= b < after.len() && a != b
                        implies (#[trigger] after[a]).0@ != (#[trigger] after[b]).0@ by {
                        if a != i && b != i {
                            assert(after[a] == before[a] && after[b] == before[b]);
                        } else if a == i {
                            assert(after[b] == before[b]);
                            assert(before[i as int].0@ == k);
                        } else {
                            assert(after[a] == before[a]);
                            assert(before[i as int].0@ == k);
                        }
                    }
                }
                assert forall|kk: Seq<char>| #[trigger] has_key(after, kk) == (kk == k || has_key(before, kk)) by {
                    if has_key(before, kk) {
                        let j = choose|j: int| 0 <= j < before.len() && (#[trigger] before[j]).0@ == kk;
                        if j == i {
                            assert(after[i as int].0@ == kk);
                        } else {
                            assert(after[j] == before[j]);
                        }
                    }
                    if kk == k {
                        assert(after[i as int].0@ == kk);
                    }
                    if has_key(after, kk) {
                        let j = choose|j: int| 0 <= j < after.len() && (#[trigger] after[j]).0@ == kk;
                        if j != i {
                            assert(after[j] == before[j]);
                        }
                    }
                }
                assert(self@ =~= old(self)@.insert(k, v)) by {
                    assert forall|kk: Seq<char>| #[trigger] self@.contains_key(kk) implies self@[kk] == old(self)@.insert(k, v)[kk] by {
                        let j = choose|j: int| 0 <= j < after.len() && (#[trigger] after[j]).0@ == kk;
                        lemma_entry_in_map(after, j);
                        if j != i {
                            assert(after[j] == before[j]);
                            lemma_entry_in_map(before, j);
                        }
                    }
                }
            },
            None => {
                let ghost before = self.entries@;
                self.entries.push((key, v));
                let ghost after = self.entries@;
                assert(after == before.push((after.last().0, v)));
                assert(distinct_keys(after)) by {
                    assert forall|a: int, b: int| 0 <= a < after.len() && 0 <= b < after.len() && a != b
                        implies (#[trigger] after[a]).0@ != (#[trigger] after[b]).0@ by {
                        if a < before.len() && b < before.len() {
                            assert(after[a] == before[a] && after[b] == before[b]);
                        } else if a < before.len() {
                            assert(after[a] == before[a]);
                            assert(has_key(before, before[a].0@));
                        } else {
                            assert(after[b] == before[b]);
                            assert(has_key(before, before[b].0@));
                        }
                    }
                }
                let ghost last = before.len() as int;
                assert forall|kk: Seq<char>| #[trigger] has_key(after, kk) == (kk == k || has_key(before, kk)) by {
                    if has_key(before, kk) {
                        let j = choose|j: int| 0 <= j < before.len() && (#[trigger] before[j]).0@ == kk;
                        assert(after[j] == before[j]);
                    }
                    if kk == k {
                        assert(after[last].0@ == kk);
                    }
                    if has_key(after, kk) {
                        let j = choose|j: int| 0 <= j < after.len() && (#[trigger] after[j]).0@ == kk;
                        if j != last {
                            assert(after[j] == before[j]);
                        }
                    }
                }
                assert(self@ =~= old(self)@.insert(k, v)) by {
                    assert forall|kk: Seq<char>| #[trigger] self@.contains_key(kk) implies self@[kk] == old(self)@.insert(k, v)[kk] by {
                        let j = choose|j: int| 0 <= j < after.len() && (#[trigger] after[j]).0@ == kk;
                        lemma_entry_in_map(after, j);
                        if j != last {
                            assert(after[j] == before[j]);
                            lemma_entry_in_map(before, j);
                        }
                    }
                }
            },
        }
    }

    /// Removes the value stored under `key`, if any.
    pub fn remove(&mut self, key: &String)
        requires
            old(self).wf(),
        ensures
            final(self).wf(),
            final(self)@ == old(self)@.remove(key@),
    {
        let ghost k = key@;
        match self.find(key) {
            Some(i) => {
                let ghost before = self.entries@;
                self.entries.remove(i);
                let ghost after = self.entries@;
                assert(after =~= before.remove(i as int));
                assert(distinct_keys(after)) by {
                    assert forall|a: int, b: int| 0 <= a < after.len() && 0 <= b < after.len() && a != b
                        implies (#[trigger] after[a]).0@ != (#[trigger] after[b]).0@ by {
                        let a2 = if a < i { a } else { a + 1 };
                        let b2 = if b < i { b } else { b + 1 };
                        assert(after[a] == before[a2] && after[b] == before[b2]);
                    }
                }
                assert forall|kk: Seq<char>| #[trigger] has_key(after, kk) == (kk != k && has_key(before, kk)) by {
                    if has_key(after, kk) {
                        let j = choose|j: int| 0 <= j < after.len() && (#[trigger] after[j]).0@ == kk;
                        let j2 = if j < i { j } else { j + 1 };
                        assert(after[j] == before[j2]);
                        assert(j2 != i);
                    }
                    if kk != k && has_key(before, kk) {
                        let j = choose|j: int| 0 <= j < before.len() && (#[trigger] before[j]).0@ == kk;
                        assert(j != i);
                        let j2 = if j < i { j } else { j - 1 };
                        assert(after[j2] == before[j]);
                    }
                }
                assert(self@ =~= old(self)@.remove(k)) by {
                    assert forall|kk: Seq<char>| #[trigger] self@.contains_key(kk) implies self@[kk] == old(self)@[kk] by {
                        let j = choose|j: int| 0 <= j < after.len() && (#[trigger] after[j]).0@ == kk;
                        lemma_entry_in_map(after, j);
                        let j2 = if j < i { j } else { j + 1 };
                        assert(after[j] == before[j2]);
                        lemma_entry_in_map(before, j2);
                    }
                }
            },
            None => {
                assert(self@ =~= old(self)@.remove(k));
            },
        }
    }

    /// An equal map whose keys are fresh copies.
    pub fn duplicate(&self) -> (c: Self)
        where V: Copy
        requires
            self.wf(),
        ensures
            c.wf(),
            c@ == self@,
    {
        proof {
            self.lemma_keys();
        }
        let mut c = StrMap::new();
        let n = self.len();
        let mut i: usize = 0;
        while i < n
            invariant
                self.wf(),
                c.wf(),
                n == self.len_spec(),
                self.key_seq().len() == n,
                forall|k: Seq<char>| self@.contains_key(k) <==> self.key_seq().contains(k),
                i <= n,
                forall|k: Seq<char>| #[trigger] c@.contains_key(k) <==> self.key_seq().subrange(0, i as int).contains(k),
                forall|k: Seq<char>| #[trigger] c@.contains_key(k) ==> self@.contains_key(k) && c@[k] == self@[k],
            decreases n - i,
        {
            let key = self.key_at(i);
            let v = self.value_at(i);
            let ghost before = c@;
            c.insert(key.clone(), v);
            proof {
                let ks = self.key_seq();
                assert forall|k: Seq<char>| #[trigger] c@.contains_key(k) <==> ks.subrange(0, i + 1).contains(k) by {
                    if ks.subrange(0, i + 1).contains(k) {
                        let j = choose|j: int| 0 <= j < i + 1 && #[trigger] ks.subrange(0, i + 1)[j] == k;
                        if j < i {
                            assert(ks.subrange(0, i as int)[j] == k);
                        }
                    }
                    if before.contains_key(k) {
                        let j = choose|j: int| 0 <= j < i && #[trigger] ks.subrange(0, i as int)[j] == k;
                        assert(ks.subrange(0, i + 1)[j] == k);
                    }
                    if k == ks[i as int] {
                        assert(ks.subrange(0, i + 1)[i as int] == k);
                    }
                }
            }
            i = i + 1;
        }
        proof {
            assert(self.key_seq().subrange(0, n as int) =~= self.key_seq());
            assert(c@ =~= self@);
        }
        c
    }
}


/// A copy of the texts `files` holds, under the same keys.
pub fn copy_text_map(files: &StrMap<String>) -> (c: StrMap<String>)
    requires
        files.wf(),
    ensures
        c.wf(),
        c@ == files@,
{
    proof {
        files.lemma_keys();
    }
    let mut c: StrMap<String> = StrMap::new();
    let n = files.len();
    let mut i: usize = 0;
    while i < n
        invariant
            files.wf(),
            c.wf(),
            n == files.len_spec(),
            files.key_seq().len() == n,
            forall|k: Seq<char>| files@.contains_key(k) <==> files.key_seq().contains(k),
            i <= n,
            forall|k: Seq<char>| #[trigger] c@.contains_key(k) <==> files.key_seq().subrange(0, i as int).contains(k),
            forall|k: Seq<char>| #[trigger] c@.contains_key(k) ==> files@.contains_key(k) && c@[k] == files@[k],
        decreases n - i,
    {
        let key = files.key_at(i);
        let v = files.value_ref_at(i);
        let ghost before = c@;
        c.insert(key.clone(), v.clone());
        proof {
            let ks = files.key_seq();
            assert forall|k: Seq<char>| #[trigger] c@.contains_key(k) <==> ks.subrange(0, i + 1).contains(k) by {
                if ks.subrange(0, i + 1).contains(k) {
                    let j = choose|j: int| 0 <= j < i + 1 && #[trigger] ks.subrange(0, i + 1)[j] == k;
                    if j < i {
                        assert(ks.subrange(0, i as int)[j] == k);
                    }
                }
                if before.contains_key(k) {
                    let j = choose|j: int| 0 <= j < i && #[trigger] ks.subrange(0, i as int)[j] == k;
                    assert(ks.subrange(0, i + 1)[j] == k);
                }
                if k == ks[i as int] {
                    assert(ks.subrange(0, i + 1)[i as int] == k);
                }
            }
        }
        i = i + 1;
    }
    proof {
        assert(files.key_seq().subrange(0, n as int) =~= files.key_seq());
        assert(c@ =~= files@);
    }
    c
}

} // verus!
