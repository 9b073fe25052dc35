use amazon_rose_forest::core_lib::str_map::StrMap;
use amazon_rose_forest::holochain::graph::KnowledgeGraph;
use amazon_rose_forest::holochain::ontology::{semantic_merge, Concept, OntologyGraph, Relationship};

fn meta(pairs: &[(&str, &str)]) -> StrMap<String> {
    let mut m = StrMap::new();
    for (k, v) in pairs {
        m.insert(k.to_string(), v.to_string());
    }
    m
}

fn concept(id: &str, name: &str, description: &str, pairs: &[(&str, &str)]) -> Concept<Vec<f32>> {
    Concept {
        id: id.to_string(),
        name: name.to_string(),
        description: description.to_string(),
        embedding: vec![1.0, 0.0],
        metadata: meta(pairs),
    }
}

fn link(source: &str, target: &str, kind: &str) -> Relationship<f32> {
    Relationship {
        source_id: source.to_string(),
        target_id: target.to_string(),
        relation_type: kind.to_string(),
        weight: 1.0,
        metadata: StrMap::new(),
    }
}

#[test]
fn concepts_and_links_are_added_once() {
    let mut g: OntologyGraph<Vec<f32>, f32> = OntologyGraph::new();
    g.add_concept(concept("a", "A", "first", &[]), "n1");
    g.add_concept(concept("a", "A2", "again", &[]), "n1");
    g.add_concept(concept("b", "B", "second", &[]), "n2");
    assert_eq!(g.concepts.len(), 2);
    assert_eq!(g.version_vector.get("n1"), 1);
    g.add_relationship(link("a", "b", "is_a"), "n1");
    g.add_relationship(link("a", "b", "is_a"), "n1");
    g.add_relationship(link("a", "missing", "is_a"), "n1");
    g.add_relationship(link("b", "a", "is_a"), "n2");
    assert_eq!(g.relationships.len(), 2);
    assert_eq!(g.version_vector.get("n1"), 2);
    assert_eq!(g.version_vector.get("n2"), 2);
}

#[test]
fn merging_joins_identical_and_similar_concepts() {
    let mut a: OntologyGraph<Vec<f32>, f32> = OntologyGraph::new();
    a.add_concept(concept("x", "X", "a thing", &[("source", "a")]), "n1");
    a.add_concept(concept("y", "Y", "other", &[]), "n1");
    a.add_relationship(link("x", "y", "near"), "n1");
    let mut b: OntologyGraph<Vec<f32>, f32> = OntologyGraph::new();
    b.add_concept(concept("x", "X", "ignored", &[("extra", "1")]), "n2");
    b.add_concept(concept("z", "Z", "the same thing", &[("source", "b"), ("lang", "en")]), "n2");
    b.add_concept(concept("w", "W", "new", &[]), "n2");
    b.add_relationship(link("x", "z", "near"), "n2");
    b.add_relationship(link("x", "y", "near"), "n2");
    // rows: b's concepts; columns: a's concepts (x, y) then b's (x, z, w)
    let similar = vec![
        vec![false, false, false, false, false],
        vec![true, false, false, false, false],
        vec![false, false, false, false, false],
    ];
    let m = semantic_merge(a, &b, &similar);
    let ids: Vec<&str> = m.concepts.iter().map(|c| c.id.as_str()).collect();
    assert_eq!(ids, vec!["x", "y", "w"]);
    let x = &m.concepts[0];
    assert_eq!(x.description, "a thing\n\nAlternative description: the same thing");
    assert_eq!(x.metadata.get_ref(&"source".to_string()), Some(&"a".to_string()));
    assert_eq!(x.metadata.get_ref(&"lang".to_string()), Some(&"en".to_string()));
    assert_eq!(x.metadata.get_ref(&"extra".to_string()), None);
    let links: Vec<(&str, &str)> =
        m.relationships.iter().map(|r| (r.source_id.as_str(), r.target_id.as_str())).collect();
    assert_eq!(links, vec![("x", "y"), ("x", "z")]);
    assert_eq!(m.version_vector.get("n1"), 3);
    assert_eq!(m.version_vector.get("n2"), 4);
}

#[test]
fn graph_has_a_node_per_concept() {
    let mut g: OntologyGraph<Vec<f32>, f32> = OntologyGraph::new();
    g.add_concept(concept("a", "Alpha", "", &[]), "n");
    g.add_concept(concept("b", "Beta", "", &[]), "n");
    g.add_relationship(link("a", "b", "links"), "n");
    g.relationships.push(link("a", "ghost", "dangling"));
    let pg = g.to_graph();
    assert_eq!(pg.node_count(), 2);
    assert_eq!(pg.edge_count(), 1);
    let names: Vec<&String> = pg.node_weights().collect();
    assert_eq!(names, vec!["Alpha", "Beta"]);
    let e = &pg.raw_edges()[0];
    assert_eq!((e.source().index(), e.target().index(), e.weight.as_str()), (0, 1, "links"));
}

#[test]
fn knowledge_graph_links_known_concepts() {
    let mut k = KnowledgeGraph::new();
    k.add_concept("c1", "Rust");
    k.add_concept("c2", "Verus");
    k.add_relationship("c2", "c1", "verifies");
    k.add_relationship("c2", "c9", "ignored");
    k.add_concept("c1", "Rust again");
    k.add_relationship("c2", "c1", "verifies");
    let g = k.graph();
    assert_eq!(g.node_count(), 3);
    assert_eq!(g.edge_count(), 2);
    let ends: Vec<(usize, usize, &str)> =
        g.raw_edges().iter().map(|e| (e.source().index(), e.target().index(), e.weight.as_str())).collect();
    assert_eq!(ends, vec![(1, 0, "verifies"), (1, 2, "verifies")]);
}

#[test]
fn merge_keeps_joined_embeddings_and_copies_added_ones() {
    let mut a: OntologyGraph<Vec<f32>, f32> = OntologyGraph::new();
    let mut x = concept("x", "X", "a thing", &[]);
    x.embedding = vec![0.5, 0.5];
    a.add_concept(x, "n1");
    let mut b: OntologyGraph<Vec<f32>, f32> = OntologyGraph::new();
    let mut z = concept("z", "Z", "similar", &[]);
    z.embedding = vec![9.0, 9.0];
    b.add_concept(z, "n2");
    let mut w = concept("w", "W", "new", &[]);
    w.embedding = vec![3.0, 4.0];
    b.add_concept(w, "n2");
    let similar = vec![vec![true, false, false], vec![false, false, false]];
    let m = semantic_merge(a, &b, &similar);
    assert_eq!(m.concepts.len(), 2);
    assert_eq!(m.concepts[0].embedding, vec![0.5, 0.5]);
    assert_eq!(m.concepts[1].id, "w");
    assert_eq!(m.concepts[1].embedding, vec![3.0, 4.0]);
}
