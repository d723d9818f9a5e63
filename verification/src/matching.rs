//! What it means for one graph of atoms and bonds to be found within
//! another.
use vstd::prelude::*;

verus! {

/// Whether `edge` joins the nodes `x` and `y`, in either direction, with
/// weight `weight`.
pub open spec fn joined_by(edge: (u32, u32, u8), x: u32, y: u32, weight: u8) -> bool {
    edge == (x, y, weight) || edge == (y, x, weight)
}

/// Whether one of `edges` joins the nodes `x` and `y` with weight `weight`.
pub open spec fn joins(edges: Seq<(u32, u32, u8)>, x: u32, y: u32, weight: u8) -> bool {
    exists|i: int| 0 <= i < edges.len() && joined_by(#[trigger] edges[i], x, y, weight)
}

/// Whether two edges join the same two nodes.
pub open spec fn parallel(edge: (u32, u32, u8), other: (u32, u32, u8)) -> bool {
    (edge.0 == other.0 && edge.1 == other.1) || (edge.0 == other.1 && edge.1 == other.0)
}

/// Whether the edges are those of a simple graph: none joins a node to
/// itself, and no two join the same two nodes.
pub open spec fn is_simple(edges: Seq<(u32, u32, u8)>) -> bool {
    &&& forall|i: int| 0 <= i < edges.len() ==> (#[trigger] edges[i]).0 != edges[i].1
    &&& forall|i: int, j: int|
        0 <= i < j < edges.len() ==> !parallel(#[trigger] edges[i], #[trigger] edges[j])
}

/// Whether `placement` lays the first graph on the second: each node on a
/// node of its own with the same weight, and two nodes of the first joined
/// with a weight exactly when the nodes they lie on are joined with that
/// weight.
pub open spec fn places(
    placement: Seq<u32>,
    nodes: Seq<u32>,
    edges: Seq<(u32, u32, u8)>,
    other_nodes: Seq<u32>,
    other_edges: Seq<(u32, u32, u8)>,
) -> bool {
    &&& placement.len() == nodes.len()
    &&& forall|i: int|
        0 <= i < nodes.len() ==> (#[trigger] placement[i]) < other_nodes.len()
            && other_nodes[placement[i] as int] == nodes[i]
    &&& forall|i: int, j: int|
        0 <= i < j < nodes.len() ==> #[trigger] placement[i] != #[trigger] placement[j]
    &&& forall|x: u32, y: u32, weight: u8|
        x < nodes.len() && y < nodes.len() ==> #[trigger] joins(edges, x, y, weight) == joins(
            other_edges,
            placement[x as int],
            placement[y as int],
            weight,
        )
}

/// Whether the first graph is found within the second: whether it is the
/// same, weights and all, as what the second holds on some of its nodes and
/// between them.
pub open spec fn found_within(
    nodes: Seq<u32>,
    edges: Seq<(u32, u32, u8)>,
    other_nodes: Seq<u32>,
    other_edges: Seq<(u32, u32, u8)>,
) -> bool {
    exists|placement: Seq<u32>| #[trigger] places(placement, nodes, edges, other_nodes, other_edges)
}

/// The placement that lays each node on the node with its own index.
pub open spec fn in_place(count: nat) -> Seq<u32> {
    Seq::new(count, |i: int| i as u32)
}

/// A graph is found within itself.
pub proof fn law_found_in_itself(nodes: Seq<u32>, edges: Seq<(u32, u32, u8)>)
    requires
        nodes.len() <= u32::MAX,
    ensures
        places(in_place(nodes.len()), nodes, edges, nodes, edges),
        found_within(nodes, edges, nodes, edges),
{
    assert(places(in_place(nodes.len()), nodes, edges, nodes, edges));
}

/// A weight that an edge of the first graph has is the weight of an edge of
/// the second, if the first is found within the second.
pub proof fn law_found_weights_occur(
    nodes: Seq<u32>,
    edges: Seq<(u32, u32, u8)>,
    other_nodes: Seq<u32>,
    other_edges: Seq<(u32, u32, u8)>,
    i: int,
)
    requires
        found_within(nodes, edges, other_nodes, other_edges),
        0 <= i < edges.len(),
        edges[i].0 < nodes.len(),
        edges[i].1 < nodes.len(),
    ensures
        exists|j: int| 0 <= j < other_edges.len() && (#[trigger] other_edges[j]).2 == edges[i].2,
{
    let placement = choose|placement: Seq<u32>| #[trigger]
        places(placement, nodes, edges, other_nodes, other_edges);
    let (x, y, weight) = edges[i];
    assert(joined_by(edges[i], x, y, weight));
    assert(joins(edges, x, y, weight));
    assert(joins(other_edges, placement[x as int], placement[y as int], weight));
    let j = choose|j: int|
        0 <= j < other_edges.len() && joined_by(
            #[trigger] other_edges[j],
            placement[x as int],
            placement[y as int],
            weight,
        );
    assert(other_edges[j].2 == edges[i].2);
}

} // verus!
