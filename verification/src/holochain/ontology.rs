//! Shared ontologies: concepts and the relationships between them, merged
//! across nodes.  A concept joins the first concept with its identifier or
//! similar to it; a relationship joins none; the version vectors merge.
//! Whether two concepts are similar is decided from their embeddings, which
//! the graph carries as an opaque payload.

use vstd::prelude::*;
use vstd::string::StringExecFns;
use vstd::string::StrSliceExecFns;
use crate::core_lib::str_map::StrMap;
use crate::core_lib::str_map::copy_text_map;
use crate::holochain::graph::add_graph_edge;
use crate::holochain::graph::add_graph_node;
use crate::holochain::graph::graph_edges;
use crate::holochain::graph::graph_nodes;
use crate::holochain::graph::new_graph;
use crate::holochain::semantic_crdt::VersionVector;
use crate::holochain::semantic_crdt::count_of;
use crate::holochain::semantic_crdt::vv_merge;

verus! {

/// A concept: its identifier, name, description, metadata, and embedding.
#[derive(Debug)]
pub struct Concept<E> {
    pub id: String,
    pub name: String,
    pub description: String,
    pub embedding: E,
    pub metadata: StrMap<String>,
}

/// What a concept holds besides its embedding: identifier, name,
/// description, metadata.
pub type ConceptView = (Seq<char>, Seq<char>, Seq<char>, Map<Seq<char>, String>);

impl<E> View for Concept<E> {
    type V = ConceptView;

    open spec fn view(&self) -> ConceptView {
        (self.id@, self.name@, self.description@, self.metadata@)
    }
}

/// A relationship of type `relation_type` from one concept to another.
#[derive(Debug)]
pub struct Relationship<W> {
    pub source_id: String,
    pub target_id: String,
    pub relation_type: String,
    pub weight: W,
    pub metadata: StrMap<String>,
}

/// What a relationship holds besides its weight: source, target, type,
/// metadata.
pub type RelationView = (Seq<char>, Seq<char>, Seq<char>, Map<Seq<char>, String>);

impl<W> View for Relationship<W> {
    type V = RelationView;

    open spec fn view(&self) -> RelationView {
        (self.source_id@, self.target_id@, self.relation_type@, self.metadata@)
    }
}

/// The views of the concepts `cs`, in order.
pub open spec fn concept_views<E>(cs: Seq<Concept<E>>) -> Seq<ConceptView> {
    cs.map_values(|c: Concept<E>| c@)
}

/// The views of the relationships `rs`, in order.
pub open spec fn relation_views<W>(rs: Seq<Relationship<W>>) -> Seq<RelationView> {
    rs.map_values(|r: Relationship<W>| r@)
}

/// Some concept of `cs` has identifier `id`.
pub open spec fn has_concept(cs: Seq<ConceptView>, id: Seq<char>) -> bool {
    exists|k: int| 0 <= k < cs.len() && (#[trigger] cs[k]).0 == id
}

/// `a` and `b` link the same concepts by the same type.
pub open spec fn same_link(a: RelationView, b: RelationView) -> bool {
    a.0 == b.0 && a.1 == b.1 && a.2 == b.2
}

/// Some relationship of `rs` links as `r` does.
pub open spec fn has_link(rs: Seq<RelationView>, r: RelationView) -> bool {
    exists|k: int| 0 <= k < rs.len() && same_link(#[trigger] rs[k], r)
}

/// A graph of concepts and relationships with its version vector.
#[derive(Debug)]
pub struct OntologyGraph<E, W> {
    pub concepts: Vec<Concept<E>>,
    pub relationships: Vec<Relationship<W>>,
    pub version_vector: VersionVector,
}

impl<E, W> OntologyGraph<E, W> {
    /// The version vector and every metadata map are well formed.
    pub open spec fn wf(&self) -> bool {
        &&& self.version_vector.wf()
        &&& forall|i: int| 0 <= i < self.concepts@.len() ==> (#[trigger] self.concepts@[i]).metadata.wf()
        &&& forall|i: int| 0 <= i < self.relationships@.len() ==> (#[trigger] self.relationships@[i]).metadata.wf()
    }

    /// An empty graph.
    pub fn new() -> (g: Self)
        ensures
            g.wf(),
            g.concepts@.len() == 0,
            g.relationships@.len() == 0,
            g.version_vector@ == Map::<Seq<char>, u64>::empty(),
    {
        OntologyGraph { concepts: Vec::new(), relationships: Vec::new(), version_vector: VersionVector::new() }
    }
}

/// Whether some concept of `cs` has identifier `id`.
fn find_concept<E>(cs: &Vec<Concept<E>>, id: &String) -> (b: bool)
    ensures
        b == has_concept(concept_views(cs@), id@),
{
    let mut k: usize = 0;
    while k < cs.len()
        invariant
            k <= cs@.len(),
            forall|j: int| 0 <= j < k ==> concept_views(cs@)[j].0 != id@,
        decreases cs@.len() - k,
    {
        if cs[k].id == *id {
            assert(concept_views(cs@)[k as int].0 == id@);
            return true;
        }
        k = k + 1;
    }
    false
}

/// Whether some relationship of `rs` links as `r` does.
fn find_link<W>(rs: &Vec<Relationship<W>>, r: &Relationship<W>) -> (b: bool)
    ensures
        b == has_link(relation_views(rs@), r@),
{
    let mut k: usize = 0;
    while k < rs.len()
        invariant
            k <= rs@.len(),
            forall|j: int| 0 <= j < k ==> !same_link(relation_views(rs@)[j], r@),
        decreases rs@.len() - k,
    {
        if rs[k].source_id == r.source_id && rs[k].target_id == r.target_id && rs[k].relation_type == r.relation_type {
            assert(same_link(relation_views(rs@)[k as int], r@));
            return true;
        }
        k = k + 1;
    }
    false
}

impl<E, W> OntologyGraph<E, W> {
    /// Adds `concept`, unless a concept with its identifier is there; an
    /// addition counts as an event of node `node_id`.
    pub fn add_concept(&mut self, concept: Concept<E>, node_id: &str)
        requires
            old(self).wf(),
            concept.metadata.wf(),
            count_of(old(self).version_vector@, node_id@) < u64::MAX,
        ensures
            final(self).wf(),
            final(self).relationships@ == old(self).relationships@,
            has_concept(concept_views(old(self).concepts@), concept.id@) ==> final(self).concepts@ == old(self).concepts@
                && final(self).version_vector@ == old(self).version_vector@,
            !has_concept(concept_views(old(self).concepts@), concept.id@) ==> final(self).concepts@
                == old(self).concepts@.push(concept) && final(self).version_vector@ == old(self).version_vector@.insert(
                node_id@,
                (count_of(old(self).version_vector@, node_id@) + 1) as u64,
            ),
    {
        if !find_concept(&self.concepts, &concept.id) {
            self.concepts.push(concept);
            self.version_vector.increment(node_id);
        }
    }

    /// Adds `relationship` when both its concepts are there and no
    /// relationship links them by its type yet; an addition counts as an
    /// event of node `node_id`.
    pub fn add_relationship(&mut self, relationship: Relationship<W>, node_id: &str)
        requires
            old(self).wf(),
            relationship.metadata.wf(),
            count_of(old(self).version_vector@, node_id@) < u64::MAX,
        ensures
            final(self).wf(),
            final(self).concepts@ == old(self).concepts@,
            ({
                let cs = concept_views(old(self).concepts@);
                let added = has_concept(cs, relationship.source_id@) && has_concept(cs, relationship.target_id@)
                    && !has_link(relation_views(old(self).relationships@), relationship@);
                &&& added ==> final(self).relationships@ == old(self).relationships@.push(relationship)
                    && final(self).version_vector@ == old(self).version_vector@.insert(
                    node_id@,
                    (count_of(old(self).version_vector@, node_id@) + 1) as u64,
                )
                &&& !added ==> final(self).relationships@ == old(self).relationships@
                    && final(self).version_vector@ == old(self).version_vector@
            }),
    {
        if !find_concept(&self.concepts, &relationship.source_id) || !find_concept(&self.concepts, &relationship.target_id) {
            return;
        }
        if !find_link(&self.relationships, &relationship) {
            self.relationships.push(relationship);
            self.version_vector.increment(node_id);
        }
    }
}

/// The incoming concept `c`, the `i`-th merged in, joins `entry` (a
/// concept and its position among the concepts compared): they share an
/// identifier, or `similar` says they are alike.
pub open spec fn joins(entry: (ConceptView, int), c: ConceptView, i: int, similar: Seq<Seq<bool>>) -> bool {
    entry.0.0 == c.0 || similar[i][entry.1]
}

/// Position, from `from` on, of the first entry of `list` that the
/// incoming concept `c` joins.
pub open spec fn first_join(
    list: Seq<(ConceptView, int)>,
    c: ConceptView,
    i: int,
    similar: Seq<Seq<bool>>,
    from: int,
) -> Option<int>
    decreases list.len() - from,
{
    if from < 0 || from >= list.len() {
        None
    } else if joins(list[from], c, i, similar) {
        Some(from)
    } else {
        first_join(list, c, i, similar, from + 1)
    }
}

/// Concept `e` after the similar concept `c` joined it: it gains the
/// metadata keys it lacked and, when `c` describes it otherwise, `c`'s
/// description as an alternative.
pub open spec fn enriched(e: ConceptView, c: ConceptView) -> ConceptView {
    (
        e.0,
        e.1,
        if e.2 != c.2 && c.2.len() > 0 {
            e.2 + "\n\nAlternative description: "@ + c.2
        } else {
            e.2
        },
        c.3.union_prefer_right(e.3),
    )
}

/// `list` after the incoming concept `c`, the `i`-th of those merged in
/// after `base` concepts, joined it: nothing changes when it joins a
/// concept with its identifier, the similar concept it joins is enriched,
/// and a concept that joins none is added.
pub open spec fn join_step(
    list: Seq<(ConceptView, int)>,
    c: ConceptView,
    i: int,
    similar: Seq<Seq<bool>>,
    base: int,
) -> Seq<(ConceptView, int)> {
    match first_join(list, c, i, similar, 0) {
        Some(p) => if list[p].0.0 == c.0 {
            list
        } else {
            list.update(p, (enriched(list[p].0, c), list[p].1))
        },
        None => list.push((c, base + i)),
    }
}

/// The concepts `old`, each with its position, after the first `n`
/// concepts of `incoming` joined them in order.
pub open spec fn joined_concepts(
    old: Seq<ConceptView>,
    incoming: Seq<ConceptView>,
    similar: Seq<Seq<bool>>,
    n: int,
) -> Seq<(ConceptView, int)>
    decreases n,
{
    if n <= 0 {
        Seq::new(old.len(), |j: int| (old[j], j))
    } else {
        join_step(joined_concepts(old, incoming, similar, n - 1), incoming[n - 1], n - 1, similar, old.len() as int)
    }
}

/// The relationships `old` with the first `n` of `incoming` that link
/// otherwise added, in order.
pub open spec fn merged_links(old: Seq<RelationView>, incoming: Seq<RelationView>, n: int) -> Seq<RelationView>
    decreases n,
{
    if n <= 0 {
        old
    } else {
        let l = merged_links(old, incoming, n - 1);
        if has_link(l, incoming[n - 1]) {
            l
        } else {
            l.push(incoming[n - 1])
        }
    }
}

/// The rows of `similar`, as sequences.
pub open spec fn similarity_views(similar: Seq<Vec<bool>>) -> Seq<Seq<bool>> {
    similar.map_values(|r: Vec<bool>| r@)
}

proof fn lemma_first_join(list: Seq<(ConceptView, int)>, c: ConceptView, i: int, similar: Seq<Seq<bool>>, p: int, from: int)
    requires
        0 <= from <= p <= list.len(),
        forall|q: int| from <= q < p ==> !joins(#[trigger] list[q], c, i, similar),
        p < list.len() ==> joins(list[p], c, i, similar),
    ensures
        first_join(list, c, i, similar, from) == (if p < list.len() { Some(p) } else { None::<int> }),
    decreases p - from,
{
    if from < p {
        lemma_first_join(list, c, i, similar, p, from + 1);
    }
}

proof fn lemma_first_join_in_range(list: Seq<(ConceptView, int)>, c: ConceptView, i: int, similar: Seq<Seq<bool>>, from: int)
    ensures
        first_join(list, c, i, similar, from) matches Some(p) ==> 0 <= from <= p < list.len(),
    decreases list.len() - from,
{
    if 0 <= from < list.len() && !joins(list[from], c, i, similar) {
        lemma_first_join_in_range(list, c, i, similar, from + 1);
    }
}

/// A copy of `c`, its embedding cloned.
pub fn duplicate_concept<E: Clone>(c: &Concept<E>) -> (d: Concept<E>)
    requires
        c.metadata.wf(),
    ensures
        d@ == c@,
        d.metadata.wf(),
        cloned::<E>(c.embedding, d.embedding),
{
    Concept {
        id: c.id.clone(),
        name: c.name.clone(),
        description: c.description.clone(),
        embedding: c.embedding.clone(),
        metadata: copy_text_map(&c.metadata),
    }
}

/// A copy of `r`, its weight cloned.
pub fn duplicate_relationship<W: Clone>(r: &Relationship<W>) -> (d: Relationship<W>)
    requires
        r.metadata.wf(),
    ensures
        d@ == r@,
        d.metadata.wf(),
{
    Relationship {
        source_id: r.source_id.clone(),
        target_id: r.target_id.clone(),
        relation_type: r.relation_type.clone(),
        weight: r.weight.clone(),
        metadata: copy_text_map(&r.metadata),
    }
}

/// Enriches `e` with the similar concept `c`: see [`enriched`].
pub fn merge_concept_metadata<E>(e: &mut Concept<E>, c: &Concept<E>)
    requires
        old(e).metadata.wf(),
        c.metadata.wf(),
    ensures
        final(e)@ == enriched(old(e)@, c@),
        final(e).metadata.wf(),
        final(e).embedding == old(e).embedding,
{
    proof {
        c.metadata.lemma_keys();
    }
    let ghost base = e.metadata@;
    let ghost ks = c.metadata.key_seq();
    let n = c.metadata.len();
    let mut i: usize = 0;
    while i < n
        invariant
            e.metadata.wf(),
            c.metadata.wf(),
            n == c.metadata.len_spec(),
            ks == c.metadata.key_seq(),
            ks.len() == n,
            forall|k: Seq<char>| c.metadata@.contains_key(k) <==> ks.contains(k),
            e.id == old(e).id,
            e.name == old(e).name,
            e.description == old(e).description,
            e.embedding == old(e).embedding,
            i <= n,
            forall|k: Seq<char>| #[trigger] e.metadata@.contains_key(k) <==> (base.contains_key(k) || ks.take(i as int).contains(k)),
            forall|k: Seq<char>| #[trigger] e.metadata@.contains_key(k) ==> e.metadata@[k] == (if base.contains_key(k) {
                base[k]
            } else {
                c.metadata@[k]
            }),
        decreases n - i,
    {
        let key = c.metadata.key_at(i);
        let ghost before = e.metadata@;
        if !e.metadata.contains_key(key) {
            let v = c.metadata.value_ref_at(i).clone();
            e.metadata.insert(key.clone(), v);
        }
        proof {
            assert(key@ == ks[i as int]);
            assert forall|k: Seq<char>| ks.take(i + 1).contains(k) <==> (ks.take(i as int).contains(k) || k == key@) by {
                if ks.take(i + 1).contains(k) {
                    let j = choose|j: int| 0 <= j < i + 1 && #[trigger] ks.take(i + 1)[j] == k;
                    if j < i {
                        assert(ks.take(i as int)[j] == k);
                    }
                }
                if ks.take(i as int).contains(k) {
                    let j = choose|j: int| 0 <= j < i && #[trigger] ks.take(i as int)[j] == k;
                    assert(ks.take(i + 1)[j] == k);
                }
                if k == key@ {
                    assert(ks.take(i + 1)[i as int] == k);
                }
            }
            assert forall|k: Seq<char>| #[trigger] e.metadata@.contains_key(k) <==> (base.contains_key(k) || ks.take(i + 1).contains(k)) by {
                if k != key@ {
                    assert(e.metadata@.contains_key(k) == before.contains_key(k));
                }
            }
            assert forall|k: Seq<char>| #[trigger] e.metadata@.contains_key(k) implies e.metadata@[k] == (if base.contains_key(k) {
                base[k]
            } else {
                c.metadata@[k]
            }) by {
                if k != key@ {
                    assert(before.contains_key(k));
                }
            }
        }
        i = i + 1;
    }
    proof {
        assert(ks.take(n as int) =~= ks);
        assert(e.metadata@ =~= c.metadata@.union_prefer_right(base));
    }
    if !(e.description == c.description) && c.description.as_str().unicode_len() > 0 {
        let mut d = e.description.clone();
        d.append("\n\nAlternative description: ");
        d.append(c.description.as_str());
        e.description = d;
    }
}

/// `e` is the embedding of the concept that came from position `origin`:
/// the same embedding as the `origin`-th of `own` when `origin` falls
/// among them, otherwise a clone of the embedding of the concept of
/// `incoming` at `origin` past them.
pub open spec fn embedding_from<E: Clone>(e: E, origin: int, own: Seq<Concept<E>>, incoming: Seq<Concept<E>>) -> bool {
    if origin < own.len() {
        e == own[origin].embedding
    } else {
        cloned::<E>(incoming[origin - own.len()].embedding, e)
    }
}

/// The concepts `cs` with their positions `origins`, as `joined_concepts`
/// lists them.
pub open spec fn entries_of<E>(cs: Seq<Concept<E>>, origins: Seq<usize>) -> Seq<(ConceptView, int)> {
    Seq::new(cs.len(), |k: int| (cs[k]@, origins[k] as int))
}

impl<E: Clone, W: Clone> OntologyGraph<E, W> {
    /// Merges `other` into this graph.  Each concept of `other`, in order,
    /// joins the first concept (this graph's, then those already added)
    /// that has its identifier or is similar to it, or is added; a similar
    /// concept it joins is enriched and keeps its embedding, and an added
    /// concept carries a clone of its embedding.  `similar[i][j]` says whether the
    /// `i`-th concept of `other` is similar to the `j`-th of this graph's
    /// concepts followed by `other`'s.  Each relationship of `other` that
    /// links otherwise is added, and the version vectors merge.
    pub fn merge(&mut self, other: &OntologyGraph<E, W>, similar: &Vec<Vec<bool>>)
        requires
            old(self).wf(),
            other.wf(),
            similar@.len() == other.concepts@.len(),
            forall|i: int| 0 <= i < similar@.len()
                ==> (#[trigger] similar@[i])@.len() == old(self).concepts@.len() + other.concepts@.len(),
        ensures
            final(self).wf(),
            concept_views(final(self).concepts@) == joined_concepts(
                concept_views(old(self).concepts@),
                concept_views(other.concepts@),
                similarity_views(similar@),
                other.concepts@.len() as int,
            ).map_values(|e: (ConceptView, int)| e.0),
            forall|k: int| 0 <= k < final(self).concepts@.len() ==> embedding_from(
                final(self).concepts@[k].embedding,
                #[trigger] joined_concepts(
                    concept_views(old(self).concepts@),
                    concept_views(other.concepts@),
                    similarity_views(similar@),
                    other.concepts@.len() as int,
                )[k].1,
                old(self).concepts@,
                other.concepts@,
            ),
            relation_views(final(self).relationships@) == merged_links(
                relation_views(old(self).relationships@),
                relation_views(other.relationships@),
                other.relationships@.len() as int,
            ),
            final(self).version_vector@ == vv_merge(old(self).version_vector@, other.version_vector@),
    {
        let ghost ov = concept_views(self.concepts@);
        let ghost iv = concept_views(other.concepts@);
        let ghost sv = similarity_views(similar@);
        let old_len = self.concepts.len();
        let mut origins: Vec<usize> = Vec::new();
        let mut j: usize = 0;
        while j < old_len
            invariant
                old_len == self.concepts@.len(),
                j <= old_len,
                origins@.len() == j,
                forall|k: int| 0 <= k < j ==> origins@[k] == k,
            decreases old_len - j,
        {
            origins.push(j);
            j = j + 1;
        }
        proof {
            assert(entries_of(self.concepts@, origins@) =~= joined_concepts(ov, iv, sv, 0));
            if other.concepts@.len() > 0 {
                assert(similar@[0]@.len() == old_len + other.concepts@.len());
            }
        }
        let mut i: usize = 0;
        while i < other.concepts.len()
            invariant
                self.wf(),
                other.wf(),
                ov == concept_views(old(self).concepts@),
                iv == concept_views(other.concepts@),
                sv == similarity_views(similar@),
                old_len == old(self).concepts@.len(),
                similar@.len() == other.concepts@.len(),
                forall|r: int| 0 <= r < similar@.len()
                    ==> (#[trigger] similar@[r])@.len() == old_len + other.concepts@.len(),
                i <= other.concepts@.len(),
                self.concepts@.len() == origins@.len(),
                entries_of(self.concepts@, origins@) == joined_concepts(ov, iv, sv, i as int),
                forall|k: int| 0 <= k < origins@.len() ==> (#[trigger] origins@[k]) < old_len + other.concepts@.len(),
                self.relationships@ == old(self).relationships@,
                self.version_vector@ == old(self).version_vector@,
                forall|k: int| 0 <= k < self.concepts@.len() ==> embedding_from(
                    self.concepts@[k].embedding,
                    #[trigger] origins@[k] as int,
                    old(self).concepts@,
                    other.concepts@,
                ),
            decreases other.concepts@.len() - i,
        {
            let c = &other.concepts[i];
            let row = &similar[i];
            let ghost list = entries_of(self.concepts@, origins@);
            assert(iv[i as int] == c@);
            assert(sv[i as int] == row@);
            let mut p: usize = 0;
            let mut found = false;
            while p < self.concepts.len() && !found
                invariant
                    self.concepts@.len() == origins@.len(),
                    list == entries_of(self.concepts@, origins@),
                    row@.len() == old_len + other.concepts@.len(),
                    forall|k: int| 0 <= k < origins@.len() ==> (#[trigger] origins@[k]) < old_len + other.concepts@.len(),
                    sv[i as int] == row@,
                    iv[i as int] == c@,
                    p <= self.concepts@.len(),
                    forall|q: int| 0 <= q < p ==> !joins(#[trigger] list[q], c@, i as int, sv),
                    found ==> p < self.concepts@.len() && joins(list[p as int], c@, i as int, sv),
                decreases self.concepts@.len() - p + (if found { 0int } else { 1int }),
            {
                if self.concepts[p].id == c.id || row[origins[p]] {
                    found = true;
                } else {
                    p = p + 1;
                }
            }
            proof {
                lemma_first_join(list, c@, i as int, sv, if found { p as int } else { list.len() as int }, 0);
                assert(joined_concepts(ov, iv, sv, i + 1) == join_step(list, c@, i as int, sv, old_len as int));
            }
            if found {
                if !(self.concepts[p].id == c.id) {
                    let ghost before = self.concepts@;
                    let mut e = self.concepts.remove(p);
                    merge_concept_metadata(&mut e, c);
                    self.concepts.insert(p, e);
                    proof {
                        assert forall|k: int| 0 <= k < self.concepts@.len() implies embedding_from(
                            self.concepts@[k].embedding,
                            #[trigger] origins@[k] as int,
                            old(self).concepts@,
                            other.concepts@,
                        ) by {
                            assert(self.concepts@[k].embedding == before[k].embedding);
                        }
                        assert(self.concepts@ =~= before.update(p as int, e));
                        assert(entries_of(self.concepts@, origins@) =~= list.update(
                            p as int,
                            (enriched(list[p as int].0, c@), list[p as int].1),
                        ));
                    }
                }
            } else {
                let row_len = row.len();
                assert(old_len + i < row_len);
                let d = duplicate_concept(c);
                let ghost before = self.concepts@;
                let ghost before_origins = origins@;
                self.concepts.push(d);
                origins.push(old_len + i);
                proof {
                    assert forall|k: int| 0 <= k < self.concepts@.len() implies embedding_from(
                        self.concepts@[k].embedding,
                        #[trigger] origins@[k] as int,
                        old(self).concepts@,
                        other.concepts@,
                    ) by {
                        if k < before.len() {
                            assert(self.concepts@[k] == before[k]);
                            assert(origins@[k] == before_origins[k]);
                        } else {
                            assert(origins@[k] == old_len + i);
                            assert(other.concepts@[i as int] == *c);
                        }
                    }
                    assert(entries_of(self.concepts@, origins@) =~= list.push((c@, old_len + i)));
                }
            }
            i = i + 1;
        }
        let ghost after_join = self.concepts@;
        let ghost ro = relation_views(old(self).relationships@);
        let ghost ri = relation_views(other.relationships@);
        let mut r: usize = 0;
        while r < other.relationships.len()
            invariant
                self.wf(),
                other.wf(),
                ro == relation_views(old(self).relationships@),
                ri == relation_views(other.relationships@),
                r <= other.relationships@.len(),
                relation_views(self.relationships@) == merged_links(ro, ri, r as int),
                concept_views(self.concepts@) == joined_concepts(ov, iv, sv, other.concepts@.len() as int).map_values(
                    |e: (ConceptView, int)| e.0,
                ),
                self.version_vector@ == old(self).version_vector@,
                self.concepts@ == after_join,
            decreases other.relationships@.len() - r,
        {
            let rel = &other.relationships[r];
            assert(ri[r as int] == rel@);
            let ghost before = relation_views(self.relationships@);
            if !find_link(&self.relationships, rel) {
                let d = duplicate_relationship(rel);
                self.relationships.push(d);
                assert(relation_views(self.relationships@) =~= before.push(rel@));
            }
            r = r + 1;
        }
        proof {
            assert(concept_views(self.concepts@) =~= entries_of(self.concepts@, origins@).map_values(
                |e: (ConceptView, int)| e.0,
            ));
            assert forall|k: int| 0 <= k < self.concepts@.len() implies embedding_from(
                self.concepts@[k].embedding,
                #[trigger] joined_concepts(ov, iv, sv, other.concepts@.len() as int)[k].1,
                old(self).concepts@,
                other.concepts@,
            ) by {
                assert(entries_of(self.concepts@, origins@)[k].1 == origins@[k] as int);
                assert(embedding_from(self.concepts@[k].embedding, origins@[k] as int, old(self).concepts@, other.concepts@));
            }
        }
        self.version_vector.merge(&other.version_vector);
    }
}

/// Merges `b` into `a`: see [`OntologyGraph::merge`].
pub fn semantic_merge<E: Clone, W: Clone>(a: OntologyGraph<E, W>, b: &OntologyGraph<E, W>, similar: &Vec<Vec<bool>>) -> (m: OntologyGraph<E, W>)
    requires
        a.wf(),
        b.wf(),
        similar@.len() == b.concepts@.len(),
        forall|i: int| 0 <= i < similar@.len()
            ==> (#[trigger] similar@[i])@.len() == a.concepts@.len() + b.concepts@.len(),
    ensures
        m.wf(),
        concept_views(m.concepts@) == joined_concepts(
            concept_views(a.concepts@),
            concept_views(b.concepts@),
            similarity_views(similar@),
            b.concepts@.len() as int,
        ).map_values(|e: (ConceptView, int)| e.0),
        forall|k: int| 0 <= k < m.concepts@.len() ==> embedding_from(
            m.concepts@[k].embedding,
            #[trigger] joined_concepts(
                concept_views(a.concepts@),
                concept_views(b.concepts@),
                similarity_views(similar@),
                b.concepts@.len() as int,
            )[k].1,
            a.concepts@,
            b.concepts@,
        ),
        relation_views(m.relationships@) == merged_links(
            relation_views(a.relationships@),
            relation_views(b.relationships@),
            b.relationships@.len() as int,
        ),
        m.version_vector@ == vv_merge(a.version_vector@, b.version_vector@),
{
    let mut merged = a;
    merged.merge(b, similar);
    merged
}

/// Merging relationships keeps the ones there first, in place, adds only
/// incoming ones, and leaves every incoming one linked.
pub proof fn lemma_merged_links(old: Seq<RelationView>, incoming: Seq<RelationView>, n: int)
    requires
        0 <= n <= incoming.len(),
    ensures
        merged_links(old, incoming, n).len() >= old.len(),
        merged_links(old, incoming, n).take(old.len() as int) == old,
        forall|k: int| 0 <= k < n ==> has_link(merged_links(old, incoming, n), #[trigger] incoming[k]),
        forall|k: int| old.len() <= k < merged_links(old, incoming, n).len()
            ==> incoming.take(n).contains(#[trigger] merged_links(old, incoming, n)[k]),
    decreases n,
{
    if n == 0 {
        assert(old.take(old.len() as int) =~= old);
    } else {
        lemma_merged_links(old, incoming, n - 1);
        let l = merged_links(old, incoming, n - 1);
        let m = merged_links(old, incoming, n);
        assert forall|k: int| 0 <= k < n implies has_link(m, #[trigger] incoming[k]) by {
            if k < n - 1 {
                let w = choose|w: int| 0 <= w < l.len() && same_link(#[trigger] l[w], incoming[k]);
                assert(m[w] == l[w]);
            } else if !has_link(l, incoming[k]) {
                assert(same_link(m[l.len() as int], incoming[k]));
            }
        }
        assert forall|k: int| old.len() <= k < m.len() implies incoming.take(n).contains(#[trigger] m[k]) by {
            if k < l.len() {
                assert(m[k] == l[k]);
                let w = choose|w: int| 0 <= w < incoming.take(n - 1).len() && #[trigger] incoming.take(n - 1)[w] == l[k];
                assert(incoming.take(n)[w] == l[k]);
            } else {
                assert(incoming.take(n)[n - 1] == m[k]);
            }
        }
        assert(m.take(old.len() as int) =~= old);
    }
}

/// Merging a graph's relationships into themselves changes nothing.
pub proof fn lemma_merged_links_idempotent(links: Seq<RelationView>, n: int)
    requires
        0 <= n <= links.len(),
    ensures
        merged_links(links, links, n) == links,
    decreases n,
{
    if n > 0 {
        lemma_merged_links_idempotent(links, n - 1);
        assert(same_link(links[n - 1], links[n - 1]));
    }
}

/// Joining keeps the concepts there first, in place and under their
/// identifiers, and adds concepts only at the end.
pub proof fn lemma_joined_keeps_identifiers(
    old: Seq<ConceptView>,
    incoming: Seq<ConceptView>,
    similar: Seq<Seq<bool>>,
    n: int,
)
    requires
        0 <= n <= incoming.len(),
    ensures
        joined_concepts(old, incoming, similar, n).len() >= old.len(),
        forall|j: int| 0 <= j < old.len() ==> (#[trigger] joined_concepts(old, incoming, similar, n)[j]).0.0 == old[j].0,
    decreases n,
{
    if n > 0 {
        lemma_joined_keeps_identifiers(old, incoming, similar, n - 1);
        let l = joined_concepts(old, incoming, similar, n - 1);
        let m = joined_concepts(old, incoming, similar, n);
        let c = incoming[n - 1];
        assert(m == join_step(l, c, n - 1, similar, old.len() as int));
        lemma_first_join_in_range(l, c, n - 1, similar, 0);
        match first_join(l, c, n - 1, similar, 0) {
            Some(p) => {
                if l[p].0.0 != c.0 {
                    assert(m == l.update(p, (enriched(l[p].0, c), l[p].1)));
                }
            },
            None => {
                assert(m == l.push((c, old.len() + n - 1)));
            },
        }
        assert(m.len() >= l.len());
        assert forall|j: int| 0 <= j < old.len() implies (#[trigger] m[j]).0.0 == old[j].0 by {
            assert(l[j].0.0 == old[j].0);
        }
    }
}

/// Node of the concept with identifier `id` among `cs`: the last one that
/// has it.
pub open spec fn node_of(cs: Seq<ConceptView>, id: Seq<char>) -> Option<int>
    decreases cs.len(),
{
    if cs.len() == 0 {
        None
    } else if cs.last().0 == id {
        Some(cs.len() - 1)
    } else {
        node_of(cs.drop_last(), id)
    }
}

/// Edges that the relationships `rs` between the concepts `cs` give, in
/// order: one per relationship whose two concepts are there, from the node
/// of its source to that of its target, weighted by its type.
pub open spec fn edges_of(cs: Seq<ConceptView>, rs: Seq<RelationView>) -> Seq<(usize, usize, Seq<char>)>
    decreases rs.len(),
{
    if rs.len() == 0 {
        Seq::empty()
    } else {
        let rest = edges_of(cs, rs.drop_last());
        let r = rs.last();
        match (node_of(cs, r.0), node_of(cs, r.1)) {
            (Some(a), Some(b)) => rest.push((a as usize, b as usize, r.2)),
            _ => rest,
        }
    }
}

proof fn lemma_node_of_in_range(cs: Seq<ConceptView>, id: Seq<char>)
    ensures
        node_of(cs, id) matches Some(a) ==> 0 <= a < cs.len(),
    decreases cs.len(),
{
    if cs.len() > 0 && cs.last().0 != id {
        lemma_node_of_in_range(cs.drop_last(), id);
    }
}

impl<E, W> OntologyGraph<E, W> {
    /// The graph as a directed `petgraph` graph: a node per concept, in
    /// order, weighted by its name, and an edge per relationship whose
    /// concepts are there (see [`edges_of`]).
    pub fn to_graph(&self) -> (g: petgraph::graph::Graph<String, String, petgraph::Directed, u32>)
        requires
            self.wf(),
            self.concepts@.len() < u32::MAX,
            self.relationships@.len() < u32::MAX,
        ensures
            graph_nodes(g) == concept_views(self.concepts@).map_values(|c: ConceptView| c.1),
            graph_edges(g) == edges_of(concept_views(self.concepts@), relation_views(self.relationships@)),
    {
        let ghost cv = concept_views(self.concepts@);
        let ghost rv = relation_views(self.relationships@);
        let mut g = new_graph();
        let mut node_map: StrMap<usize> = StrMap::new();
        let mut k: usize = 0;
        proof {
            assert(graph_nodes(g) =~= cv.take(0).map_values(|c: ConceptView| c.1));
        }
        while k < self.concepts.len()
            invariant
                cv == concept_views(self.concepts@),
                self.concepts@.len() < u32::MAX,
                k <= self.concepts@.len(),
                node_map.wf(),
                graph_nodes(g) == cv.take(k as int).map_values(|c: ConceptView| c.1),
                graph_edges(g) == Seq::<(usize, usize, Seq<char>)>::empty(),
                forall|id: Seq<char>| #[trigger] node_map@.contains_key(id) <==> node_of(cv.take(k as int), id) is Some,
                forall|id: Seq<char>| #[trigger] node_map@.contains_key(id)
                    ==> node_of(cv.take(k as int), id) == Some(node_map@[id] as int),
            decreases self.concepts@.len() - k,
        {
            let c = &self.concepts[k];
            let i = add_graph_node(&mut g, c.name.clone());
            node_map.insert(c.id.clone(), i);
            proof {
                let t = cv.take(k + 1);
                assert(t.drop_last() =~= cv.take(k as int));
                assert(t.last() == c@);
                assert(graph_nodes(g) =~= t.map_values(|c: ConceptView| c.1));
            }
            k = k + 1;
        }
        proof {
            assert(cv.take(cv.len() as int) =~= cv);
        }
        let mut r: usize = 0;
        proof {
            assert(rv.take(0) =~= Seq::<RelationView>::empty());
        }
        while r < self.relationships.len()
            invariant
                cv == concept_views(self.concepts@),
                rv == relation_views(self.relationships@),
                self.relationships@.len() < u32::MAX,
                r <= self.relationships@.len(),
                node_map.wf(),
                graph_nodes(g) == cv.map_values(|c: ConceptView| c.1),
                graph_edges(g) == edges_of(cv, rv.take(r as int)),
                graph_edges(g).len() <= r,
                forall|id: Seq<char>| #[trigger] node_map@.contains_key(id) <==> node_of(cv, id) is Some,
                forall|id: Seq<char>| #[trigger] node_map@.contains_key(id) ==> node_of(cv, id) == Some(node_map@[id] as int),
            decreases self.relationships@.len() - r,
        {
            let rel = &self.relationships[r];
            let source = node_map.get(&rel.source_id);
            let target = node_map.get(&rel.target_id);
            proof {
                let t = rv.take(r + 1);
                assert(t.drop_last() =~= rv.take(r as int));
                assert(t.last() == rel@);
                lemma_node_of_in_range(cv, rel.source_id@);
                lemma_node_of_in_range(cv, rel.target_id@);
            }
            match (source, target) {
                (Some(a), Some(b)) => {
                    add_graph_edge(&mut g, a, b, rel.relation_type.clone());
                },
                _ => {},
            }
            r = r + 1;
        }
        proof {
            assert(rv.take(rv.len() as int) =~= rv);
        }
        g
    }
}

/// Two relationships are the same link exactly when they join the same
/// source to the same target by the same relation type: links between the
/// same concepts by different types are different links.
pub proof fn lemma_link_identity(rs: Seq<RelationView>, r: RelationView)
    ensures
        has_link(rs, r) <==> exists|k: int| 0 <= k < rs.len() && (#[trigger] rs[k]).0 == r.0 && rs[k].1 == r.1 && rs[k].2 == r.2,
        forall|q: RelationView| q.0 == r.0 && q.1 == r.1 && q.2 != r.2 ==> !has_link(seq![q], r),
{
    assert forall|q: RelationView| q.0 == r.0 && q.1 == r.1 && q.2 != r.2 implies !has_link(seq![q], r) by {
        if has_link(seq![q], r) {
            let k = choose|k: int| 0 <= k < seq![q].len() && same_link(#[trigger] seq![q][k], r);
            assert(seq![q][k] == q);
        }
    }
}

} // verus!
