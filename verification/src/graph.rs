//! The graph store. Nodes and edges are kept in a `petgraph` graph; this
//! module says what its operations do to the nodes and edges it holds.
//!
//! Nothing here is proved: each contract restates what `petgraph` documents
//! and implements, over the two sequences [`graph_nodes`] and [`graph_edges`].
use crate::cfg::{BasicBlock, Branch};
use petgraph::graph::{Graph, NodeIndex};
use petgraph::{Directed, Outgoing};
use vstd::prelude::*;

verus! {

/// `petgraph::graph::Graph`. What a graph holds is known only through
/// [`graph_nodes`] and [`graph_edges`].
#[verifier::external_type_specification]
#[verifier::external_body]
#[verifier::reject_recursive_types(N)]
#[verifier::reject_recursive_types(E)]
#[verifier::reject_recursive_types(Ty)]
#[verifier::reject_recursive_types(Ix)]
pub struct ExGraph<N, E, Ty, Ix>(Graph<N, E, Ty, Ix>);

/// `petgraph::Directed`, the marker of a graph whose edges have a direction.
#[verifier::external_type_specification]
#[verifier::external_body]
pub struct ExDirected(Directed);

/// The node weights of a graph by node index. A graph to which nodes are
/// only added holds them in the order in which they were added.
pub uninterp spec fn graph_nodes(g: Graph<BasicBlock, Branch, Directed, u32>) -> Seq<BasicBlock>;

/// The edges of a graph by edge index: source node, target node and weight.
/// A graph to which edges are only added holds them in the order in which
/// they were added.
pub uninterp spec fn graph_edges(g: Graph<BasicBlock, Branch, Directed, u32>) -> Seq<
    (int, int, Branch),
>;

/// Whether some edge leaves the node `index`.
pub open spec fn has_outgoing(edges: Seq<(int, int, Branch)>, index: int) -> bool {
    exists|k: int| 0 <= k < edges.len() && (#[trigger] edges[k]).0 == index
}

/// `Graph::default`: a graph without nodes and edges.
#[verifier::external_body]
pub(crate) fn graph_new() -> (g: Graph<BasicBlock, Branch>)
    ensures
        graph_nodes(g) == Seq::<BasicBlock>::empty(),
        graph_edges(g) == Seq::<(int, int, Branch)>::empty(),
{
    Graph::default()
}

/// `Graph::add_node`: appends a node with the given weight and returns its
/// index. `petgraph` panics when the index would be `u32::MAX`.
#[verifier::external_body]
pub(crate) fn graph_add_node(g: &mut Graph<BasicBlock, Branch>, weight: BasicBlock) -> (index:
    usize)
    requires
        graph_nodes(*old(g)).len() < u32::MAX,
    ensures
        graph_nodes(*final(g)) == graph_nodes(*old(g)).push(weight),
        graph_edges(*final(g)) == graph_edges(*old(g)),
        index == graph_nodes(*old(g)).len(),
{
    g.add_node(weight).index()
}

/// `Graph::node_weight_mut`: access to the weight of an existing node. The
/// node's weight after the borrow is what the borrower left; nothing else
/// changes.
#[verifier::external_body]
pub(crate) fn graph_node_weight_mut(g: &mut Graph<BasicBlock, Branch>, index: usize) -> (weight:
    Option<&mut BasicBlock>)
    requires
        index < graph_nodes(*old(g)).len(),
    ensures
        weight matches Some(w) && *w == graph_nodes(*old(g))[index as int] && graph_nodes(
            *final(g),
        ) == graph_nodes(*old(g)).update(index as int, *final(w)),
        graph_edges(*final(g)) == graph_edges(*old(g)),
{
    g.node_weight_mut(NodeIndex::new(index))
}

/// `Graph::add_edge`: appends an edge between two existing nodes. `petgraph`
/// panics when a node is missing or the edge's index would be `u32::MAX`.
#[verifier::external_body]
pub(crate) fn graph_add_edge(
    g: &mut Graph<BasicBlock, Branch>,
    source: usize,
    target: usize,
    weight: Branch,
)
    requires
        source < graph_nodes(*old(g)).len(),
        target < graph_nodes(*old(g)).len(),
        graph_edges(*old(g)).len() < u32::MAX,
    ensures
        graph_nodes(*final(g)) == graph_nodes(*old(g)),
        graph_edges(*final(g)) == graph_edges(*old(g)).push((source as int, target as int, weight)),
{
    g.add_edge(NodeIndex::new(source), NodeIndex::new(target), weight);
}

/// `Graph::neighbors_directed` with `Outgoing`: whether the walk over the
/// edges that leave a node yields anything.
#[verifier::external_body]
pub(crate) fn graph_has_outgoing(g: &Graph<BasicBlock, Branch>, index: usize) -> (found: bool)
    requires
        index < graph_nodes(*g).len(),
    ensures
        found == has_outgoing(graph_edges(*g), index as int),
{
    g.neighbors_directed(NodeIndex::new(index), Outgoing).next().is_some()
}

} // verus!
