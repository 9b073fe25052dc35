//! Directed graphs of `petgraph`, with text weights on nodes and edges, and
//! the knowledge graph built on one.  What a graph holds is named here; the
//! calls that build one are trusted to do what `petgraph`'s source shows.

use vstd::prelude::*;
use crate::core_lib::str_map::StrMap;

verus! {

#[verifier::external_type_specification]
#[verifier::external_body]
#[verifier::reject_recursive_types(N)]
#[verifier::reject_recursive_types(E)]
#[verifier::reject_recursive_types(Ty)]
#[verifier::reject_recursive_types(Ix)]
pub struct ExGraph<N, E, Ty, Ix>(petgraph::graph::Graph<N, E, Ty, Ix>);

#[verifier::external_type_specification]
#[verifier::external_body]
pub struct ExDirected(petgraph::Directed);

/// Weights of the nodes of `g`, by node index.
pub uninterp spec fn graph_nodes(g: petgraph::graph::Graph<String, String, petgraph::Directed, u32>) -> Seq<Seq<char>>;

/// Edges of `g` by edge index: source node, target node, weight.
pub uninterp spec fn graph_edges(g: petgraph::graph::Graph<String, String, petgraph::Directed, u32>) -> Seq<(usize, usize, Seq<char>)>;

/// An empty directed graph, from `petgraph::graph::Graph::new`, which
/// starts with no nodes and no edges.
#[verifier::external_body]
pub(crate) fn new_graph() -> (g: petgraph::graph::Graph<String, String, petgraph::Directed, u32>)
    ensures
        graph_nodes(g) == Seq::<Seq<char>>::empty(),
        graph_edges(g) == Seq::<(usize, usize, Seq<char>)>::empty(),
{
    petgraph::graph::Graph::new()
}

/// Adds a node of weight `weight` with `Graph::add_node` and gives its
/// index (`NodeIndex::index`).  `add_node` pushes the node after the others,
/// so its index is the former node count, and leaves the edges alone; it
/// panics once the count reaches the `u32` index limit, which `requires`
/// excludes.
#[verifier::external_body]
pub(crate) fn add_graph_node(
    g: &mut petgraph::graph::Graph<String, String, petgraph::Directed, u32>,
    weight: String,
) -> (i: usize)
    requires
        graph_nodes(*old(g)).len() < u32::MAX,
    ensures
        graph_nodes(*final(g)) == graph_nodes(*old(g)).push(weight@),
        graph_edges(*final(g)) == graph_edges(*old(g)),
        i == graph_nodes(*old(g)).len(),
{
    g.add_node(weight).index()
}

/// Adds an edge from node `a` to node `b` of weight `weight` with
/// `Graph::add_edge` (node indices built by `NodeIndex::new`).  `add_edge`
/// pushes the edge after the others and leaves the nodes' weights alone; it
/// panics when a node does not exist or the edge count reaches the `u32`
/// index limit, which `requires` excludes.
#[verifier::external_body]
pub(crate) fn add_graph_edge(
    g: &mut petgraph::graph::Graph<String, String, petgraph::Directed, u32>,
    a: usize,
    b: usize,
    weight: String,
)
    requires
        a < graph_nodes(*old(g)).len(),
        b < graph_nodes(*old(g)).len(),
        graph_edges(*old(g)).len() < u32::MAX,
    ensures
        graph_nodes(*final(g)) == graph_nodes(*old(g)),
        graph_edges(*final(g)) == graph_edges(*old(g)).push((a, b, weight@)),
{
    g.add_edge(petgraph::graph::NodeIndex::new(a), petgraph::graph::NodeIndex::new(b), weight);
}

/// Concepts (nodes weighted by name) and labelled relationships (edges)
/// between them, each concept found by its identifier.
#[derive(Debug)]
pub struct KnowledgeGraph {
    graph: petgraph::graph::Graph<String, String, petgraph::Directed, u32>,
    node_map: StrMap<usize>,
}

impl KnowledgeGraph {
    /// Names of the concepts, by node index.
    pub closed spec fn nodes(&self) -> Seq<Seq<char>> {
        graph_nodes(self.graph)
    }

    /// Relationships, in the order they were added: source node, target
    /// node, label.
    pub closed spec fn edges(&self) -> Seq<(usize, usize, Seq<char>)> {
        graph_edges(self.graph)
    }

    /// Node of each concept identifier.
    pub closed spec fn ids(&self) -> Map<Seq<char>, usize> {
        self.node_map@
    }

    /// Every identifier names an existing node.
    pub closed spec fn wf(&self) -> bool {
        &&& self.node_map.wf()
        &&& forall|id: Seq<char>| #[trigger] self.node_map@.contains_key(id) ==> self.node_map@[id] < graph_nodes(self.graph).len()
    }

    /// An empty knowledge graph.
    pub fn new() -> (k: Self)
        ensures
            k.wf(),
            k.nodes() == Seq::<Seq<char>>::empty(),
            k.edges() == Seq::<(usize, usize, Seq<char>)>::empty(),
            k.ids() == Map::<Seq<char>, usize>::empty(),
    {
        KnowledgeGraph { graph: new_graph(), node_map: StrMap::new() }
    }

    /// Adds a concept named `name` under identifier `id`; the identifier now
    /// names the new node.
    pub fn add_concept(&mut self, id: &str, name: &str)
        requires
            old(self).wf(),
            old(self).nodes().len() < u32::MAX,
        ensures
            final(self).wf(),
            final(self).nodes() == old(self).nodes().push(name@),
            final(self).edges() == old(self).edges(),
            final(self).ids() == old(self).ids().insert(id@, old(self).nodes().len() as usize),
    {
        let node_index = add_graph_node(&mut self.graph, name.to_owned());
        self.node_map.insert(id.to_owned(), node_index);
    }

    /// Adds a relationship labelled `label` from concept `from` to concept
    /// `to`, when both identifiers name concepts.
    pub fn add_relationship(&mut self, from: &str, to: &str, label: &str)
        requires
            old(self).wf(),
            old(self).edges().len() < u32::MAX,
        ensures
            final(self).wf(),
            final(self).nodes() == old(self).nodes(),
            final(self).ids() == old(self).ids(),
            old(self).ids().contains_key(from@) && old(self).ids().contains_key(to@) ==> final(self).edges()
                == old(self).edges().push((old(self).ids()[from@], old(self).ids()[to@], label@)),
            !(old(self).ids().contains_key(from@) && old(self).ids().contains_key(to@)) ==> final(self).edges()
                == old(self).edges(),
    {
        let from_index = self.node_map.get(&from.to_owned());
        let to_index = self.node_map.get(&to.to_owned());
        match (from_index, to_index) {
            (Some(a), Some(b)) => {
                add_graph_edge(&mut self.graph, a, b, label.to_owned());
            },
            _ => {},
        }
    }

    /// The underlying graph.
    pub fn graph(&self) -> (g: &petgraph::graph::Graph<String, String, petgraph::Directed, u32>)
        ensures
            graph_nodes(*g) == self.nodes(),
            graph_edges(*g) == self.edges(),
    {
        &self.graph
    }
}

} // verus!
