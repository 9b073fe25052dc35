//! The integer side of the Hilbert-curve vector index: distance metrics and
//! their names, the curve resolution chosen for a number of dimensions, and
//! the buckets that group vector identifiers by curve position.

use vstd::prelude::*;
use crate::core_lib::id_map::IdMap;

verus! {

/// How the distance between two vectors is measured.  All four give a
/// distance, so a lower score is a closer match.
#[derive(Debug, Clone, Copy, PartialEq, Eq, Structural)]
pub enum DistanceMetric {
    Euclidean,
    Cosine,
    Manhattan,
    Hamming,
}

impl DistanceMetric {
    /// Whether lower scores are better: true for every metric (cosine
    /// similarity is turned into a distance).
    pub fn is_lower_better(&self) -> (b: bool)
        ensures
            b,
    {
        match self {
            DistanceMetric::Euclidean | DistanceMetric::Manhattan | DistanceMetric::Hamming => true,
            DistanceMetric::Cosine => true,
        }
    }
}

/// Name of the metric, in lower case.
pub open spec fn metric_name(m: DistanceMetric) -> Seq<char> {
    match m {
        DistanceMetric::Euclidean => "euclidean"@,
        DistanceMetric::Cosine => "cosine"@,
        DistanceMetric::Manhattan => "manhattan"@,
        DistanceMetric::Hamming => "hamming"@,
    }
}

/// Metric whose lower-case name is exactly `name`, if any.
pub open spec fn metric_named(name: Seq<char>) -> Option<DistanceMetric> {
    if name == "euclidean"@ {
        Some(DistanceMetric::Euclidean)
    } else if name == "cosine"@ {
        Some(DistanceMetric::Cosine)
    } else if name == "manhattan"@ {
        Some(DistanceMetric::Manhattan)
    } else if name == "hamming"@ {
        Some(DistanceMetric::Hamming)
    } else {
        None
    }
}

/// Lower-case form of the text `s`, as `str::to_lowercase` computes it.
pub uninterp spec fn lowercase(s: Seq<char>) -> Seq<char>;

/// Every character of `s` is an ASCII lower-case letter.
pub open spec fn is_ascii_lower_word(s: Seq<char>) -> bool {
    forall|i: int| 0 <= i < s.len() ==> 'a' <= #[trigger] s[i] && s[i] <= 'z'
}

/// Every character of `s` is ASCII.
pub open spec fn is_ascii_text(s: Seq<char>) -> bool {
    forall|i: int| 0 <= i < s.len() ==> (#[trigger] s[i] as u32) < 128
}

/// `c` with an ASCII upper-case letter turned into its lower-case letter.
pub open spec fn ascii_lower_char(c: char) -> char {
    if 'A' <= c && c <= 'Z' {
        ((c as u32) + 32) as char
    } else {
        c
    }
}

/// `s` with every ASCII upper-case letter turned into lower case.
pub open spec fn ascii_lower(s: Seq<char>) -> Seq<char> {
    s.map_values(|c: char| ascii_lower_char(c))
}

/// Calls `str::to_lowercase`.  Claimed: the result is the lower-case form of
/// `s`, a function of `s` alone; on an ASCII text it lower-cases the letters
/// A to Z and keeps every other character (the Unicode lower-case mapping
/// of ASCII characters), so a text made only of ASCII lower-case letters is
/// its own lower-case form.
#[verifier::external_body]
pub(crate) fn to_lowercase(s: &str) -> (r: String)
    ensures
        r@ == lowercase(s@),
        is_ascii_text(s@) ==> r@ == ascii_lower(s@),
        is_ascii_lower_word(s@) ==> r@ == s@,
{
    s.to_lowercase()
}

/// Metric named by the lower-case text `name`, if any.
pub fn metric_from_lowercase(name: &str) -> (m: Option<DistanceMetric>)
    ensures
        m == metric_named(name@),
{
    proof {
        reveal_strlit("euclidean");
        reveal_strlit("cosine");
        reveal_strlit("manhattan");
        reveal_strlit("hamming");
    }
    let text = name.to_owned();
    if text == "euclidean".to_owned() {
        Some(DistanceMetric::Euclidean)
    } else if text == "cosine".to_owned() {
        Some(DistanceMetric::Cosine)
    } else if text == "manhattan".to_owned() {
        Some(DistanceMetric::Manhattan)
    } else if text == "hamming".to_owned() {
        Some(DistanceMetric::Hamming)
    } else {
        None
    }
}

/// Metric named by `name` in any letter case, if any.
pub fn metric_from_name(name: &str) -> (m: Option<DistanceMetric>)
    ensures
        m == metric_named(lowercase(name@)),
        is_ascii_text(name@) ==> m == metric_named(ascii_lower(name@)),
        is_ascii_lower_word(name@) ==> m == metric_named(name@),
{
    let lower = to_lowercase(name);
    metric_from_lowercase(lower.as_str())
}

/// Every metric's name parses back to the metric.
pub proof fn lemma_metric_name_roundtrip(m: DistanceMetric)
    ensures
        is_ascii_lower_word(metric_name(m)),
        metric_named(metric_name(m)) == Some(m),
{
    reveal_strlit("euclidean");
    reveal_strlit("cosine");
    reveal_strlit("manhattan");
    reveal_strlit("hamming");
    assert("cosine"@ != "euclidean"@) by {
        assert("cosine"@.len() != "euclidean"@.len());
    }
    assert("manhattan"@ != "euclidean"@) by {
        assert("manhattan"@[0] != "euclidean"@[0]);
    }
    assert("manhattan"@ != "cosine"@) by {
        assert("manhattan"@.len() != "cosine"@.len());
    }
    assert("hamming"@ != "euclidean"@) by {
        assert("hamming"@.len() != "euclidean"@.len());
    }
    assert("hamming"@ != "cosine"@) by {
        assert("hamming"@.len() != "cosine"@.len());
    }
    assert("hamming"@ != "manhattan"@) by {
        assert("hamming"@.len() != "manhattan"@.len());
    }
    assert forall|i: int| 0 <= i < metric_name(m).len() implies 'a' <= #[trigger] metric_name(m)[i] && metric_name(m)[i] <= 'z' by {
    }
}

/// Total number of curve bits an index aims to stay within.
pub const MAX_TOTAL_BITS: usize = 60;

/// Largest number of bits per coordinate an index uses.
pub const MAX_BITS_PER_DIMENSION: usize = 10;

/// Bits per coordinate of an index over `dimensions` coordinates: ten, or
/// fewer so that all coordinates together use at most sixty bits.
pub fn index_bits_per_dimension(dimensions: usize) -> (b: usize)
    requires
        dimensions > 0,
    ensures
        b == (if MAX_TOTAL_BITS / dimensions < MAX_BITS_PER_DIMENSION {
            MAX_TOTAL_BITS / dimensions
        } else {
            MAX_BITS_PER_DIMENSION
        }),
        b * dimensions <= MAX_TOTAL_BITS,
{
    let per = MAX_TOTAL_BITS / dimensions;
    proof {
        assert(per * dimensions <= MAX_TOTAL_BITS) by (nonlinear_arith)
            requires
                per == MAX_TOTAL_BITS / dimensions,
                dimensions > 0,
        ;
        if MAX_BITS_PER_DIMENSION <= per {
            assert(MAX_BITS_PER_DIMENSION * dimensions <= per * dimensions) by (nonlinear_arith)
                requires
                    MAX_BITS_PER_DIMENSION <= per,
            ;
        }
    }
    if per < MAX_BITS_PER_DIMENSION {
        per
    } else {
        MAX_BITS_PER_DIMENSION
    }
}

/// How far, on each side, a search looks around the query's curve position.
pub const SEARCH_WINDOW: u64 = 5;

/// Whether a search that found `candidates` vectors near the query, asked
/// for `limit` results among `total` stored vectors, falls back to scoring
/// every vector: when it found fewer than four times the limit and fewer
/// than half of all vectors.
pub fn needs_full_scan(candidates: usize, limit: usize, total: usize) -> (b: bool)
    ensures
        b == (candidates < 4 * limit && candidates < total / 2),
{
    candidates / 4 < limit && candidates < total / 2
}

/// Curve positions a search looks at around `center` after `n` steps, in
/// the order it looks: the center, then for `i` = 1 to `n` the position `i`
/// below (when there is one) and the position `i` above.
pub open spec fn window_upto(center: u64, n: nat) -> Seq<u64>
    decreases n,
{
    if n == 0 {
        seq![center]
    } else {
        let below = if center >= n { seq![(center - n) as u64] } else { Seq::<u64>::empty() };
        window_upto(center, (n - 1) as nat) + below + seq![(center + n) as u64]
    }
}

/// Curve positions a search looks at around `center`.
pub open spec fn window_positions(center: u64) -> Seq<u64> {
    window_upto(center, 5)
}

/// Predicate keeping the identifiers other than `id`.
pub open spec fn other_than(id: u128) -> spec_fn(u128) -> bool {
    |x: u128| x != id
}

/// Predicate keeping the positions occupied in `contents`.
pub open spec fn occupied_in(contents: Map<u64, Seq<u128>>) -> spec_fn(u64) -> bool {
    |p: u64| contents.contains_key(p)
}

/// Groups vector identifiers by the curve position of their vector.
#[derive(Debug)]
pub struct HilbertBuckets {
    buckets: IdMap<Vec<u128>>,
}

impl HilbertBuckets {
    /// Identifiers stored at each occupied curve position, in insertion
    /// order.
    pub closed spec fn contents(&self) -> Map<u64, Seq<u128>> {
        Map::new(
            |p: u64| self.buckets@.contains_key(p as u128),
            |p: u64| self.buckets@[p as u128]@,
        )
    }

    pub closed spec fn wf(&self) -> bool {
        &&& self.buckets.wf()
        &&& forall|k: u128| #[trigger] self.buckets@.contains_key(k) ==> k <= u64::MAX && self.buckets@[k]@.len() > 0
    }

    /// No positions are occupied.
    pub fn new() -> (b: Self)
        ensures
            b.wf(),
            b.contents() == Map::<u64, Seq<u128>>::empty(),
    {
        let b = HilbertBuckets { buckets: IdMap::new() };
        assert(b.contents() =~= Map::<u64, Seq<u128>>::empty());
        b
    }

    /// Adds `id` at curve position `position`.
    pub fn add(&mut self, position: u64, id: u128)
        requires
            old(self).wf(),
        ensures
            final(self).wf(),
            final(self).contents() == old(self).contents().insert(
                position,
                if old(self).contents().contains_key(position) {
                    old(self).contents()[position].push(id)
                } else {
                    seq![id]
                },
            ),
    {
        let mut ids = match self.buckets.take(position as u128) {
            Some(v) => v,
            None => Vec::new(),
        };
        let ghost before = ids@;
        ids.push(id);
        self.buckets.insert(position as u128, ids);
        proof {
            if !old(self).contents().contains_key(position) {
                assert(before =~= Seq::<u128>::empty());
            }
            assert forall|k: u128| #[trigger] self.buckets@.contains_key(k) implies k <= u64::MAX && self.buckets@[k]@.len() > 0 by {
                if k != position as u128 {
                    assert(old(self).buckets@.contains_key(k));
                }
            }
            assert(self.contents() =~= old(self).contents().insert(
                position,
                if old(self).contents().contains_key(position) {
                    old(self).contents()[position].push(id)
                } else {
                    seq![id]
                },
            )) by {
                assert forall|p: u64| #[trigger] self.contents().contains_key(p) implies self.contents()[p] == old(self).contents().insert(
                    position,
                    if old(self).contents().contains_key(position) {
                        old(self).contents()[position].push(id)
                    } else {
                        seq![id]
                    },
                )[p] by {
                    if p != position {
                        assert(p as u128 != position as u128);
                    }
                }
                assert forall|p: u64| #[trigger] self.contents().contains_key(p) <==> old(self).contents().insert(position, seq![id]).contains_key(p) by {
                    if p != position {
                        assert(p as u128 != position as u128);
                    }
                }
            }
        }
    }

    /// Removes every occurrence of `id` at curve position `position`, and the
    /// position itself when nothing is left there.
    pub fn remove(&mut self, position: u64, id: u128)
        requires
            old(self).wf(),
        ensures
            final(self).wf(),
            !old(self).contents().contains_key(position) ==> final(self).contents() == old(self).contents(),
            old(self).contents().contains_key(position) ==> {
                let rest = old(self).contents()[position].filter(other_than(id));
                if rest.len() == 0 {
                    final(self).contents() == old(self).contents().remove(position)
                } else {
                    final(self).contents() == old(self).contents().insert(position, rest)
                }
            },
    {
        match self.buckets.take(position as u128) {
            Some(ids) => {
                let ghost old_ids = ids@;
                let mut kept: Vec<u128> = Vec::new();
                let mut i: usize = 0;
                while i < ids.len()
                    invariant
                        i <= ids@.len(),
                        kept@ == ids@.subrange(0, i as int).filter(other_than(id)),
                    decreases ids@.len() - i,
                {
                    proof {
                        let s = ids@.subrange(0, i + 1);
                        assert(s.drop_last() =~= ids@.subrange(0, i as int));
                        ids@.subrange(0, i as int).lemma_filter_push(ids@[i as int], other_than(id));
                        assert(ids@.subrange(0, i as int).push(ids@[i as int]) =~= s);
                    }
                    if ids[i] != id {
                        kept.push(ids[i]);
                    }
                    i = i + 1;
                }
                proof {
                    assert(ids@.subrange(0, ids@.len() as int) =~= ids@);
                }
                if kept.len() > 0 {
                    self.buckets.insert(position as u128, kept);
                }
                proof {
                    assert forall|k: u128| #[trigger] self.buckets@.contains_key(k) implies k <= u64::MAX && self.buckets@[k]@.len() > 0 by {
                        if k != position as u128 {
                            assert(old(self).buckets@.contains_key(k));
                        }
                    }
                    let rest = old_ids.filter(other_than(id));
                    if rest.len() == 0 {
                        assert forall|p: u64| #[trigger] self.contents().contains_key(p) <==> old(self).contents().remove(position).contains_key(p) by {
                            if p != position {
                                assert(p as u128 != position as u128);
                            }
                        }
                        assert(self.contents() =~= old(self).contents().remove(position));
                    } else {
                        assert forall|p: u64| #[trigger] self.contents().contains_key(p) <==> old(self).contents().insert(position, rest).contains_key(p) by {
                            if p != position {
                                assert(p as u128 != position as u128);
                            }
                        }
                        assert forall|p: u64| #[trigger] self.contents().contains_key(p) implies self.contents()[p] == old(self).contents().insert(position, rest)[p] by {
                            if p != position {
                                assert(p as u128 != position as u128);
                            }
                        }
                        assert(self.contents() =~= old(self).contents().insert(position, rest));
                    }
                }
            },
            None => {
                proof {
                    assert(self.contents() =~= old(self).contents());
                }
            },
        }
    }

    /// Whether position `position` is occupied.
    pub fn contains(&self, position: u64) -> (b: bool)
        requires
            self.wf(),
        ensures
            b == self.contents().contains_key(position),
    {
        self.buckets.contains_key(position as u128)
    }

    /// Identifiers stored at position `position` (none when it is empty).
    pub fn ids_at(&self, position: u64) -> (ids: Vec<u128>)
        requires
            self.wf(),
        ensures
            ids@ == (if self.contents().contains_key(position) {
                self.contents()[position]
            } else {
                Seq::<u128>::empty()
            }),
    {
        match self.buckets.get(position as u128) {
            Some(v) => v.clone(),
            None => Vec::new(),
        }
    }

    /// The occupied positions among those a search looks at around `center`,
    /// in the order it looks at them.
    pub fn nearby_positions(&self, center: u64) -> (ps: Vec<u64>)
        requires
            self.wf(),
            center <= u64::MAX - SEARCH_WINDOW,
        ensures
            ps@ == window_positions(center).filter(occupied_in(self.contents())),
    {
        let mut candidates: Vec<u64> = vec![center];
        let mut i: u64 = 1;
        while i <= SEARCH_WINDOW
            invariant
                1 <= i <= 6,
                center <= u64::MAX - SEARCH_WINDOW,
                candidates@ == window_upto(center, (i - 1) as nat),
            decreases 6 - i,
        {
            let ghost before = candidates@;
            if center >= i {
                candidates.push(center - i);
            }
            candidates.push(center + i);
            proof {
                let below = if center >= i { seq![(center - i) as u64] } else { Seq::<u64>::empty() };
                assert(candidates@ =~= before + below + seq![(center + i) as u64]);
            }
            i = i + 1;
        }
        let ghost pred = occupied_in(self.contents());
        let mut out: Vec<u64> = Vec::new();
        let mut j: usize = 0;
        while j < candidates.len()
            invariant
                self.wf(),
                pred == occupied_in(self.contents()),
                j <= candidates@.len(),
                out@ == candidates@.subrange(0, j as int).filter(pred),
            decreases candidates@.len() - j,
        {
            proof {
                candidates@.subrange(0, j as int).lemma_filter_push(candidates@[j as int], pred);
                assert(candidates@.subrange(0, j as int).push(candidates@[j as int]) =~= candidates@.subrange(0, j + 1));
            }
            if self.contains(candidates[j]) {
                out.push(candidates[j]);
            }
            j = j + 1;
        }
        proof {
            assert(candidates@.subrange(0, candidates@.len() as int) =~= candidates@);
        }
        out
    }

    /// Number of occupied positions.
    pub fn bucket_count(&self) -> (n: usize)
        requires
            self.wf(),
        ensures
            n == self.contents().dom().len(),
    {
        proof {
            self.buckets.lemma_keys();
            self.lemma_contents_dom();
        }
        self.buckets.len()
    }

    /// Occupied positions in storage order.
    pub closed spec fn position_order(&self) -> Seq<u64> {
        self.buckets.key_seq().map_values(|k: u128| k as u64)
    }

    /// The storage order lists every occupied position once.
    pub proof fn lemma_position_order(&self)
        requires
            self.wf(),
        ensures
            self.position_order().no_duplicates(),
            forall|p: u64| self.contents().contains_key(p) <==> self.position_order().contains(p),
    {
        self.buckets.lemma_keys();
        let ks = self.buckets.key_seq();
        let ps = self.position_order();
        assert forall|i: int| 0 <= i < ks.len() implies ks[i] <= u64::MAX && (#[trigger] ps[i]) as u128 == ks[i] by {
            assert(ks.contains(ks[i]));
            assert(self.buckets@.contains_key(ks[i]));
        }
        assert forall|i: int, j: int| 0 <= i < ps.len() && 0 <= j < ps.len() && i != j implies ps[i] != ps[j] by {
            assert(ps[i] as u128 == ks[i]);
            assert(ps[j] as u128 == ks[j]);
        }
        assert forall|p: u64| self.contents().contains_key(p) <==> ps.contains(p) by {
            if self.contents().contains_key(p) {
                assert(ks.contains(p as u128));
                let i = choose|i: int| 0 <= i < ks.len() && ks[i] == p as u128;
                assert(ps[i] as u128 == ks[i]);
            }
            if ps.contains(p) {
                let i = choose|i: int| 0 <= i < ps.len() && ps[i] == p;
                assert(ps[i] as u128 == ks[i]);
                assert(ks.contains(ks[i]));
                assert(self.buckets@.contains_key(ks[i]));
            }
        }
    }

    /// Number of identifiers at each occupied position, in storage order.
    pub fn bucket_sizes(&self) -> (sizes: Vec<usize>)
        requires
            self.wf(),
        ensures
            sizes@.len() == self.position_order().len(),
            forall|i: int| 0 <= i < sizes@.len() ==> sizes@[i] == self.contents()[#[trigger] self.position_order()[i]].len(),
    {
        proof {
            self.buckets.lemma_keys();
        }
        let mut sizes: Vec<usize> = Vec::new();
        let n = self.buckets.len();
        let mut i: usize = 0;
        while i < n
            invariant
                self.wf(),
                n == self.buckets.len_spec(),
                n == self.buckets.key_seq().len(),
                i <= n,
                sizes@.len() == i,
                forall|j: int| 0 <= j < i ==> sizes@[j] == self.contents()[#[trigger] self.position_order()[j]].len(),
            decreases n - i,
        {
            let k = self.buckets.key_at(i);
            let ids = self.buckets.value_at(i);
            proof {
                let p = k as u64;
                assert(p as u128 == k);
                assert(self.position_order()[i as int] == p);
                assert(self.contents()[p] == ids@);
            }
            sizes.push(ids.len());
            i = i + 1;
        }
        sizes
    }

    proof fn lemma_contents_dom(&self)
        requires
            self.wf(),
            self.buckets@.dom().finite(),
        ensures
            self.contents().dom().finite(),
            self.contents().dom().len() == self.buckets@.dom().len(),
    {
        let d = self.contents().dom();
        let g = |k: u128| k as u64;
        assert(vstd::relations::injective_on(g, self.buckets@.dom())) by {
            assert forall|x: u128, y: u128| self.buckets@.dom().contains(x) && self.buckets@.dom().contains(y) && #[trigger] g(x) == #[trigger] g(y) implies x == y by {
                assert(x <= u64::MAX && y <= u64::MAX);
            }
        }
        assert(self.buckets@.dom().map(g) =~= d) by {
            assert forall|p: u64| d.contains(p) implies self.buckets@.dom().map(g).contains(p) by {
                assert(g(p as u128) == p);
            }
            assert forall|p: u64| self.buckets@.dom().map(g).contains(p) implies d.contains(p) by {
                let k = choose|k: u128| self.buckets@.dom().contains(k) && g(k) == p;
                assert(k <= u64::MAX);
                assert(p as u128 == k);
            }
        }
        vstd::set_lib::lemma_map_size(self.buckets@.dom(), d, g);
    }
}

} // verus!
