//! The graph that a molecule is held in.
//!
//! The graph is `petgraph`'s `Graph` with undirected edges: nodes and edges
//! are numbered from zero in the order in which they were added. Nothing
//! here is proved: each function states what the `petgraph` function that it
//! calls does to the nodes and edges of the graph.
use crate::matching::{found_within, is_simple};
use petgraph::graph::{EdgeIndex, Graph, NodeIndex};
use petgraph::Undirected;
use vstd::prelude::*;

verus! {

/// `petgraph::graph::Graph`, taken as it is: the verifier sees nothing inside
/// a graph, and learns of its nodes and edges from `nodes_of` and `edges_of`.
#[verifier::external_type_specification]
#[verifier::external_body]
#[verifier::reject_recursive_types(N)]
#[verifier::reject_recursive_types(E)]
#[verifier::reject_recursive_types(Ty)]
#[verifier::reject_recursive_types(Ix)]
pub struct ExGraph<N, E, Ty, Ix>(petgraph::graph::Graph<N, E, Ty, Ix>);

/// `petgraph::Undirected`, the marker of a graph whose edges have no
/// direction.
#[verifier::external_type_specification]
#[verifier::external_body]
pub struct ExUndirected(petgraph::Undirected);

/// The weights of the nodes of a graph, by node index.
pub uninterp spec fn nodes_of(graph: Graph<u32, u8, Undirected, u32>) -> Seq<u32>;

/// The edges of a graph, by edge index: the indices of the two nodes that an
/// edge joins, in the order in which they were given, and its weight.
pub uninterp spec fn edges_of(graph: Graph<u32, u8, Undirected, u32>) -> Seq<(u32, u32, u8)>;

/// Whether `petgraph` finds the first graph, given by its nodes and edges,
/// within the second. For simple graphs `petgraph` documents what that
/// means, and `graph_embeds` states it; for graphs with edges from a node to
/// itself, or with several edges between two nodes, this is the answer of
/// `petgraph`'s search, whatever it is.
pub uninterp spec fn embeds(
    nodes: Seq<u32>,
    edges: Seq<(u32, u32, u8)>,
    other_nodes: Seq<u32>,
    other_edges: Seq<(u32, u32, u8)>,
) -> bool;

/// `Graph::new_undirected`: a graph without nodes and edges.
#[verifier::external_body]
pub(crate) fn graph_new() -> (graph: Graph<u32, u8, Undirected, u32>)
    ensures
        nodes_of(graph) == Seq::<u32>::empty(),
        edges_of(graph) == Seq::<(u32, u32, u8)>::empty(),
{
    Graph::new_undirected()
}

/// `Clone::clone` of a graph: a graph with the same nodes and edges under
/// the same indices.
#[verifier::external_body]
pub(crate) fn graph_clone(graph: &Graph<u32, u8, Undirected, u32>) -> (copy: Graph<
    u32,
    u8,
    Undirected,
    u32,
>)
    ensures
        nodes_of(copy) == nodes_of(*graph),
        edges_of(copy) == edges_of(*graph),
{
    graph.clone()
}

/// `Graph::node_count`: the number of nodes.
#[verifier::external_body]
pub(crate) fn graph_node_count(graph: &Graph<u32, u8, Undirected, u32>) -> (count: usize)
    ensures
        count == nodes_of(*graph).len(),
{
    graph.node_count()
}

/// `Graph::edge_count`: the number of edges.
#[verifier::external_body]
pub(crate) fn graph_edge_count(graph: &Graph<u32, u8, Undirected, u32>) -> (count: usize)
    ensures
        count == edges_of(*graph).len(),
{
    graph.edge_count()
}

/// `Graph::add_node`: the node is added behind the others, and its index is
/// returned. The edges stay. `petgraph` panics where the graph holds
/// `u32::MAX` nodes already.
#[verifier::external_body]
pub(crate) fn graph_add_node(graph: &mut Graph<u32, u8, Undirected, u32>, weight: u32) -> (index:
    u32)
    requires
        nodes_of(*old(graph)).len() < u32::MAX,
    ensures
        index == nodes_of(*old(graph)).len(),
        nodes_of(*final(graph)) == nodes_of(*old(graph)).push(weight),
        edges_of(*final(graph)) == edges_of(*old(graph)),
{
    graph.add_node(weight).index() as u32
}

/// `Graph::add_edge`: the edge is added behind the others, and its index is
/// returned. The nodes stay. `petgraph` panics where one of the two nodes
/// does not exist, or where the graph holds `u32::MAX` edges already.
#[verifier::external_body]
pub(crate) fn graph_add_edge(
    graph: &mut Graph<u32, u8, Undirected, u32>,
    a: u32,
    b: u32,
    weight: u8,
) -> (index: u32)
    requires
        a < nodes_of(*old(graph)).len(),
        b < nodes_of(*old(graph)).len(),
        edges_of(*old(graph)).len() < u32::MAX,
    ensures
        index == edges_of(*old(graph)).len(),
        nodes_of(*final(graph)) == nodes_of(*old(graph)),
        edges_of(*final(graph)) == edges_of(*old(graph)).push((a, b, weight)),
{
    graph.add_edge(NodeIndex::new(a as usize), NodeIndex::new(b as usize), weight).index() as u32
}

/// `Graph::node_weight`: the weight of the node with the given index, if
/// there is such a node.
#[verifier::external_body]
pub(crate) fn graph_node_weight(graph: &Graph<u32, u8, Undirected, u32>, index: u32) -> (weight:
    Option<u32>)
    ensures
        weight == if index < nodes_of(*graph).len() {
            Some(nodes_of(*graph)[index as int])
        } else {
            None
        },
{
    graph.node_weight(NodeIndex::new(index as usize)).copied()
}

/// `Graph::edge_endpoints`: the indices of the two nodes that the edge with
/// the given index joins, if there is such an edge.
#[verifier::external_body]
pub(crate) fn graph_edge_endpoints(graph: &Graph<u32, u8, Undirected, u32>, index: u32) -> (ends:
    Option<(u32, u32)>)
    ensures
        ends == if index < edges_of(*graph).len() {
            Some((edges_of(*graph)[index as int].0, edges_of(*graph)[index as int].1))
        } else {
            None
        },
{
    graph.edge_endpoints(EdgeIndex::new(index as usize)).map(
        |(a, b)| (a.index() as u32, b.index() as u32),
    )
}

/// `Graph::edge_weight`: the weight of the edge with the given index, if
/// there is such an edge.
#[verifier::external_body]
pub(crate) fn graph_edge_weight(graph: &Graph<u32, u8, Undirected, u32>, index: u32) -> (weight:
    Option<u8>)
    ensures
        weight == if index < edges_of(*graph).len() {
            Some(edges_of(*graph)[index as int].2)
        } else {
            None
        },
{
    graph.edge_weight(EdgeIndex::new(index as usize)).copied()
}

/// `petgraph::algo::is_isomorphic_subgraph_matching`, with equality of
/// weights as the match of two nodes and of two edges.
///
/// `petgraph` documents the answer for graphs that are not multigraphs:
/// whether the first graph is isomorphic, node weights and edge weights
/// included, to a subgraph of the second, where a subgraph is some of the
/// nodes with all the edges between them. That is stated here for simple
/// graphs. A graph with more nodes or more edges than the other is not found
/// within it, whatever the graphs.
///
/// `petgraph` makes a table of one bit for each pair of nodes of a graph, and
/// panics where the number of pairs does not fit in `usize`. It makes the
/// table of the first graph only where that has no more nodes than the
/// other.
#[verifier::external_body]
pub(crate) fn graph_embeds(
    graph: &Graph<u32, u8, Undirected, u32>,
    other: &Graph<u32, u8, Undirected, u32>,
) -> (found: bool)
    requires
        nodes_of(*other).len() * nodes_of(*other).len() <= usize::MAX,
    ensures
        found == embeds(nodes_of(*graph), edges_of(*graph), nodes_of(*other), edges_of(*other)),
        is_simple(edges_of(*graph)) && is_simple(edges_of(*other)) ==> found == found_within(
            nodes_of(*graph),
            edges_of(*graph),
            nodes_of(*other),
            edges_of(*other),
        ),
        nodes_of(*graph).len() > nodes_of(*other).len() ==> !found,
        edges_of(*graph).len() > edges_of(*other).len() ==> !found,
{
    petgraph::algo::is_isomorphic_subgraph_matching(graph, other, PartialEq::eq, PartialEq::eq)
}

} // verus!
