//! Version vectors for distributed consistency of shared ontologies.

use vstd::prelude::*;
use crate::core_lib::str_map::StrMap;

verus! {

/// Counter of node `k` in the version vector `m` (zero when absent).
pub open spec fn count_of(m: Map<Seq<char>, u64>, k: Seq<char>) -> u64 {
    if m.contains_key(k) {
        m[k]
    } else {
        0
    }
}

/// Larger of two counters.
pub open spec fn max_u64(a: u64, b: u64) -> u64 {
    if a >= b {
        a
    } else {
        b
    }
}

/// Pointwise maximum of two version vectors.
pub open spec fn vv_merge(a: Map<Seq<char>, u64>, b: Map<Seq<char>, u64>) -> Map<Seq<char>, u64> {
    Map::new(
        |k: Seq<char>| a.contains_key(k) || b.contains_key(k),
        |k: Seq<char>| max_u64(count_of(a, k), count_of(b, k)),
    )
}

/// `a` has seen everything `b` has, and strictly more.
pub open spec fn vv_dominates(a: Map<Seq<char>, u64>, b: Map<Seq<char>, u64>) -> bool {
    &&& forall|k: Seq<char>| #[trigger] count_of(a, k) >= count_of(b, k)
    &&& exists|k: Seq<char>| #[trigger] count_of(a, k) > count_of(b, k)
}

/// Every counter of `b`, except that of node `skip`, is matched or exceeded
/// in `a`.
pub open spec fn vv_covers_except(a: Map<Seq<char>, u64>, b: Map<Seq<char>, u64>, skip: Seq<char>) -> bool {
    forall|k: Seq<char>| #[trigger] b.contains_key(k) && k != skip ==> count_of(a, k) >= b[k]
}

/// After merging `b` into `a`, every counter of `b` is covered, whichever
/// node is skipped: an event stamped with the merged-in clock is causally
/// ready.
pub proof fn lemma_merge_covers(a: Map<Seq<char>, u64>, b: Map<Seq<char>, u64>, skip: Seq<char>)
    ensures
        vv_covers_except(vv_merge(a, b), b, skip),
{
    assert forall|k: Seq<char>| #[trigger] b.contains_key(k) && k != skip implies count_of(vv_merge(a, b), k) >= b[k] by {
        assert(vv_merge(a, b).contains_key(k));
    }
}

/// Neither vector dominates the other.
pub open spec fn vv_concurrent(a: Map<Seq<char>, u64>, b: Map<Seq<char>, u64>) -> bool {
    !vv_dominates(a, b) && !vv_dominates(b, a)
}

/// Merging is commutative.
pub proof fn lemma_merge_commutative(a: Map<Seq<char>, u64>, b: Map<Seq<char>, u64>)
    ensures
        vv_merge(a, b) == vv_merge(b, a),
{
    assert(vv_merge(a, b) =~= vv_merge(b, a));
}

/// Merging is associative.
pub proof fn lemma_merge_associative(
    a: Map<Seq<char>, u64>,
    b: Map<Seq<char>, u64>,
    c: Map<Seq<char>, u64>,
)
    ensures
        vv_merge(vv_merge(a, b), c) == vv_merge(a, vv_merge(b, c)),
{
    assert(vv_merge(vv_merge(a, b), c) =~= vv_merge(a, vv_merge(b, c)));
}

/// Merging a vector with itself changes nothing.
pub proof fn lemma_merge_idempotent(a: Map<Seq<char>, u64>)
    ensures
        vv_merge(a, a) == a,
{
    assert(vv_merge(a, a) =~= a);
}

/// The merge is the least vector that has seen everything either side saw.
pub proof fn lemma_merge_least_upper_bound(
    a: Map<Seq<char>, u64>,
    b: Map<Seq<char>, u64>,
    c: Map<Seq<char>, u64>,
    k: Seq<char>,
)
    ensures
        count_of(vv_merge(a, b), k) >= count_of(a, k),
        count_of(vv_merge(a, b), k) >= count_of(b, k),
        count_of(c, k) >= count_of(a, k) && count_of(c, k) >= count_of(b, k) ==> count_of(c, k)
            >= count_of(vv_merge(a, b), k),
{
}

/// No vector dominates itself.
pub proof fn lemma_dominates_irreflexive(a: Map<Seq<char>, u64>)
    ensures
        !vv_dominates(a, a),
{
}

/// Domination is never mutual.
pub proof fn lemma_dominates_asymmetric(a: Map<Seq<char>, u64>, b: Map<Seq<char>, u64>)
    ensures
        !(vv_dominates(a, b) && vv_dominates(b, a)),
{
    if vv_dominates(a, b) && vv_dominates(b, a) {
        let k = choose|k: Seq<char>| #[trigger] count_of(a, k) > count_of(b, k);
        assert(count_of(b, k) >= count_of(a, k));
    }
}

/// Domination is transitive.
pub proof fn lemma_dominates_transitive(
    a: Map<Seq<char>, u64>,
    b: Map<Seq<char>, u64>,
    c: Map<Seq<char>, u64>,
)
    requires
        vv_dominates(a, b),
        vv_dominates(b, c),
    ensures
        vv_dominates(a, c),
{
    let k = choose|k: Seq<char>| #[trigger] count_of(a, k) > count_of(b, k);
    assert(count_of(b, k) >= count_of(c, k));
    assert(count_of(a, k) > count_of(c, k));
    assert forall|j: Seq<char>| #[trigger] count_of(a, j) >= count_of(c, j) by {
        assert(count_of(a, j) >= count_of(b, j));
        assert(count_of(b, j) >= count_of(c, j));
    }
}

/// Concurrency is symmetric.
pub proof fn lemma_concurrent_symmetric(a: Map<Seq<char>, u64>, b: Map<Seq<char>, u64>)
    ensures
        vv_concurrent(a, b) == vv_concurrent(b, a),
{
}

/// A version vector: one counter per node.
#[derive(Debug, Clone)]
pub struct VersionVector {
    entries: StrMap<u64>,
}

impl View for VersionVector {
    type V = Map<Seq<char>, u64>;

    closed spec fn view(&self) -> Map<Seq<char>, u64> {
        self.entries@
    }
}

impl VersionVector {
    pub closed spec fn wf(&self) -> bool {
        self.entries.wf()
    }

    /// A vector with no counters.
    pub fn new() -> (v: Self)
        ensures
            v.wf(),
            v@ == Map::<Seq<char>, u64>::empty(),
    {
        VersionVector { entries: StrMap::new() }
    }

    /// A vector whose only counter is `node_id`'s, at zero.
    pub fn starting_at(node_id: &str) -> (v: Self)
        ensures
            v.wf(),
            v@ == Map::<Seq<char>, u64>::empty().insert(node_id@, 0u64),
    {
        let mut entries = StrMap::new();
        entries.insert(node_id.to_owned(), 0u64);
        VersionVector { entries }
    }

    /// An equal vector.
    pub fn duplicate(&self) -> (v: Self)
        requires
            self.wf(),
        ensures
            v.wf(),
            v@ == self@,
    {
        VersionVector { entries: self.entries.duplicate() }
    }

    /// Counter of `node_id` (zero when absent).
    pub fn get(&self, node_id: &str) -> (c: u64)
        requires
            self.wf(),
        ensures
            c == count_of(self@, node_id@),
    {
        let key = node_id.to_owned();
        match self.entries.get(&key) {
            Some(c) => c,
            None => 0,
        }
    }

    /// Adds one to the counter of `node_id`, creating it at zero first.
    pub fn increment(&mut self, node_id: &str)
        requires
            old(self).wf(),
            count_of(old(self)@, node_id@) < u64::MAX,
        ensures
            final(self).wf(),
            final(self)@ == old(self)@.insert(node_id@, (count_of(old(self)@, node_id@) + 1) as u64),
    {
        let key = node_id.to_owned();
        let current = match self.entries.get(&key) {
            Some(c) => c,
            None => 0,
        };
        self.entries.insert(key, current + 1);
    }

    /// Raises every counter to at least the other vector's counter.
    pub fn merge(&mut self, other: &VersionVector)
        requires
            old(self).wf(),
            other.wf(),
        ensures
            final(self).wf(),
            final(self)@ == vv_merge(old(self)@, other@),
    {
        proof {
            other.entries.lemma_keys();
        }
        let n = other.entries.len();
        let mut i: usize = 0;
        while i < n
            invariant
                self.wf(),
                other.wf(),
                n == other.entries.len_spec(),
                other.entries.key_seq().len() == n,
                other.entries.key_seq().no_duplicates(),
                forall|k: Seq<char>| other@.contains_key(k) <==> other.entries.key_seq().contains(k),
                i <= n,
                self@ == vv_merge(
                    old(self)@,
                    other@.restrict(other.entries.key_seq().subrange(0, i as int).to_set()),
                ),
            decreases n - i,
        {
            let key = other.entries.key_at(i);
            let theirs = other.entries.value_at(i);
            let mine = match self.entries.get(key) {
                Some(c) => c,
                None => 0,
            };
            let best = if mine >= theirs {
                mine
            } else {
                theirs
            };
            let ghost before = self@;
            self.entries.insert(key.clone(), best);
            proof {
                let ks = other.entries.key_seq();
                let done = ks.subrange(0, i as int).to_set();
                let done2 = ks.subrange(0, i + 1).to_set();
                let sub1 = ks.subrange(0, i as int);
                let sub2 = ks.subrange(0, i + 1);
                assert forall|x: Seq<char>| done2.contains(x) <==> (done.contains(x) || x == ks[i as int]) by {
                    if sub2.contains(x) {
                        let j = choose|j: int| 0 <= j < sub2.len() && sub2[j] == x;
                        if j < i {
                            assert(sub1[j] == x);
                        }
                    }
                    if sub1.contains(x) {
                        let j = choose|j: int| 0 <= j < sub1.len() && sub1[j] == x;
                        assert(sub2[j] == x);
                    }
                    if x == ks[i as int] {
                        assert(sub2[i as int] == x);
                    }
                }
                assert(done2 =~= done.insert(ks[i as int]));
                assert(!done.contains(ks[i as int])) by {
                    if done.contains(ks[i as int]) {
                        let j = choose|j: int| 0 <= j < i && ks.subrange(0, i as int)[j] == ks[i as int];
                        assert(ks[j] == ks[i as int]);
                    }
                }
                assert(self@ =~= vv_merge(old(self)@, other@.restrict(done2)));
            }
            i = i + 1;
        }
        proof {
            let ks = other.entries.key_seq();
            assert(ks.subrange(0, n as int) =~= ks);
            assert(other@.restrict(ks.to_set()) =~= other@);
        }
    }

    /// `self` has seen everything `other` has, and strictly more.
    pub fn dominates(&self, other: &VersionVector) -> (d: bool)
        requires
            self.wf(),
            other.wf(),
        ensures
            d == vv_dominates(self@, other@),
    {
        proof {
            self.entries.lemma_keys();
            other.entries.lemma_keys();
        }
        let mut has_greater = false;
        let ghost mut witness: Seq<char> = Seq::empty();
        let n = self.entries.len();
        let mut i: usize = 0;
        while i < n
            invariant
                self.wf(),
                other.wf(),
                n == self.entries.len_spec(),
                self.entries.key_seq().len() == n,
                forall|k: Seq<char>| self@.contains_key(k) <==> self.entries.key_seq().contains(k),
                i <= n,
                forall|j: int| 0 <= j < i ==> count_of(self@, #[trigger] self.entries.key_seq()[j])
                    >= count_of(other@, self.entries.key_seq()[j]),
                has_greater ==> count_of(self@, witness) > count_of(other@, witness),
                !has_greater ==> forall|j: int| 0 <= j < i ==> count_of(self@, #[trigger] self.entries.key_seq()[j])
                    <= count_of(other@, self.entries.key_seq()[j]),
            decreases n - i,
        {
            let key = self.entries.key_at(i);
            let mine = self.entries.value_at(i);
            let theirs = match other.entries.get(key) {
                Some(c) => c,
                None => 0,
            };
            if mine < theirs {
                return false;
            }
            if mine > theirs {
                has_greater = true;
                proof {
                    witness = key@;
                }
            }
            i = i + 1;
        }
        proof {
            let sk = self.entries.key_seq();
            assert forall|k: Seq<char>| self@.contains_key(k) implies #[trigger] count_of(self@, k) >= count_of(other@, k) by {
                let jj = choose|jj: int| 0 <= jj < sk.len() && sk[jj] == k;
                assert(count_of(self@, sk[jj]) >= count_of(other@, sk[jj]));
            }
        }
        let m = other.entries.len();
        let mut j: usize = 0;
        while j < m
            invariant
                self.wf(),
                other.wf(),
                m == other.entries.len_spec(),
                other.entries.key_seq().len() == m,
                forall|k: Seq<char>| other@.contains_key(k) <==> other.entries.key_seq().contains(k),
                j <= m,
                forall|k: Seq<char>| self@.contains_key(k) ==> #[trigger] count_of(self@, k) >= count_of(other@, k),
                forall|jj: int| 0 <= jj < j ==> count_of(self@, #[trigger] other.entries.key_seq()[jj])
                    >= count_of(other@, other.entries.key_seq()[jj]),
            decreases m - j,
        {
            let key = other.entries.key_at(j);
            let theirs = other.entries.value_at(j);
            if !self.entries.contains_key(key) && theirs > 0 {
                return false;
            }
            j = j + 1;
        }
        proof {
            let sk = self.entries.key_seq();
            let ok = other.entries.key_seq();
            assert forall|k: Seq<char>| #[trigger] count_of(self@, k) >= count_of(other@, k) by {
                if self@.contains_key(k) {
                    let jj = choose|jj: int| 0 <= jj < sk.len() && sk[jj] == k;
                    assert(count_of(self@, sk[jj]) >= count_of(other@, sk[jj]));
                } else if other@.contains_key(k) {
                    let jj = choose|jj: int| 0 <= jj < ok.len() && ok[jj] == k;
                    assert(count_of(self@, ok[jj]) >= count_of(other@, ok[jj]));
                }
            }
            if !has_greater {
                assert forall|k: Seq<char>| #[trigger] count_of(self@, k) <= count_of(other@, k) by {
                    if self@.contains_key(k) {
                        let jj = choose|jj: int| 0 <= jj < sk.len() && sk[jj] == k;
                        assert(count_of(self@, sk[jj]) <= count_of(other@, sk[jj]));
                    }
                }
            }
        }
        has_greater
    }

    /// Neither vector dominates the other.
    pub fn concurrent(&self, other: &VersionVector) -> (c: bool)
        requires
            self.wf(),
            other.wf(),
        ensures
            c == vv_concurrent(self@, other@),
    {
        !self.dominates(other) && !other.dominates(self)
    }

    /// Whether every counter of `other`, except that of `skip`, is matched or
    /// exceeded here.
    pub fn covers_except(&self, other: &VersionVector, skip: &str) -> (b: bool)
        requires
            self.wf(),
            other.wf(),
        ensures
            b == vv_covers_except(self@, other@, skip@),
    {
        proof {
            other.entries.lemma_keys();
        }
        let skipped = skip.to_owned();
        let n = other.entries.len();
        let mut i: usize = 0;
        while i < n
            invariant
                self.wf(),
                other.wf(),
                skipped@ == skip@,
                n == other.entries.len_spec(),
                other.entries.key_seq().len() == n,
                forall|k: Seq<char>| other@.contains_key(k) <==> other.entries.key_seq().contains(k),
                i <= n,
                forall|j: int| 0 <= j < i && #[trigger] other.entries.key_seq()[j] != skip@
                    ==> count_of(self@, other.entries.key_seq()[j]) >= other@[other.entries.key_seq()[j]],
            decreases n - i,
        {
            let key = other.entries.key_at(i);
            let theirs = other.entries.value_at(i);
            if !(*key == skipped) {
                let mine = match self.entries.get(key) {
                    Some(c) => c,
                    None => 0,
                };
                if mine < theirs {
                    return false;
                }
            }
            i = i + 1;
        }
        proof {
            let ks = other.entries.key_seq();
            assert forall|k: Seq<char>| #[trigger] other@.contains_key(k) && k != skip@ implies count_of(self@, k) >= other@[k] by {
                let j = choose|j: int| 0 <= j < ks.len() && ks[j] == k;
                assert(ks[j] != skip@);
            }
        }
        true
    }
}

} // verus!
