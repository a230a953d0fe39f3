//! The directed graph behind the flow network, kept in `rs_graph`'s
//! linked-list graph, and the maximum-flow solver that cuts it.
//!
//! The contracts of the functions that call into `rs_graph` are believed,
//! not proved: each states what the `rs_graph` source shows of the function
//! that it calls.

use rs_graph::linkedlistgraph::{LinkedListGraph, LinkedListGraphBuilder};
use rs_graph::maxflow::pushrelabel;
use rs_graph::traits::{Directed, FiniteDigraph, FiniteGraph, IndexGraph};
use rs_graph::Builder;
use vstd::prelude::*;

verus! {

/// `rs_graph::linkedlistgraph::LinkedListGraph`, carried as an opaque value.
#[verifier::external_type_specification]
#[verifier::external_body]
#[verifier::reject_recursive_types(ID)]
#[verifier::reject_recursive_types(N)]
#[verifier::reject_recursive_types(E)]
pub struct ExLinkedListGraph<ID, N, E>(LinkedListGraph<ID, N, E>);

/// `rs_graph::linkedlistgraph::LinkedListGraphBuilder`, carried as an opaque
/// value.
#[verifier::external_type_specification]
#[verifier::external_body]
#[verifier::reject_recursive_types(ID)]
#[verifier::reject_recursive_types(N)]
#[verifier::reject_recursive_types(E)]
pub struct ExLinkedListGraphBuilder<ID, N, E>(LinkedListGraphBuilder<ID, N, E>);

/// A directed edge as the pair of its tail and head node numbers.
pub type Arc = (usize, usize);

/// The number of nodes that a builder holds.
pub uninterp spec fn builder_nodes(b: LinkedListGraphBuilder<usize, (), ()>) -> nat;

/// The edges that a builder holds, in the order in which they were added;
/// an edge's number is its index here.
pub uninterp spec fn builder_edges(b: LinkedListGraphBuilder<usize, (), ()>) -> Seq<Arc>;

/// The number of nodes of a finished graph.
pub uninterp spec fn graph_nodes(g: LinkedListGraph<usize, (), ()>) -> nat;

/// The edges of a finished graph, indexed by edge number.
pub uninterp spec fn graph_edges(g: LinkedListGraph<usize, (), ()>) -> Seq<Arc>;

/// `Builder::new` for the linked-list graph: a builder without nodes or edges.
#[verifier::external_body]
pub(crate) fn new_builder() -> (b: LinkedListGraphBuilder<usize, (), ()>)
    ensures
        builder_nodes(b) == 0,
        builder_edges(b) == Seq::<Arc>::empty(),
{
    LinkedListGraphBuilder::new()
}

/// `Builder::add_node`: appends one node, whose number is the former node
/// count. The outside function refuses a node count next to `usize::MAX`.
#[verifier::external_body]
pub(crate) fn add_node(b: &mut LinkedListGraphBuilder<usize, (), ()>) -> (node: usize)
    requires
        builder_nodes(*old(b)) + 1 < usize::MAX,
    ensures
        node == builder_nodes(*old(b)),
        builder_nodes(*final(b)) == builder_nodes(*old(b)) + 1,
        builder_edges(*final(b)) == builder_edges(*old(b)),
{
    let node = b.add_node();
    b.node2id(node)
}

/// `Builder::add_edge`: appends the edge from `tail` to `head`, whose number
/// is the former edge count. The outside function indexes its node table by
/// both ends and refuses an edge table next to `usize::MAX`.
#[verifier::external_body]
pub(crate) fn add_edge(b: &mut LinkedListGraphBuilder<usize, (), ()>, tail: usize, head: usize) -> (edge: usize)
    requires
        tail < builder_nodes(*old(b)),
        head < builder_nodes(*old(b)),
        2 * builder_edges(*old(b)).len() + 2 < usize::MAX,
    ensures
        edge == builder_edges(*old(b)).len(),
        builder_nodes(*final(b)) == builder_nodes(*old(b)),
        builder_edges(*final(b)) == builder_edges(*old(b)).push((tail, head)),
{
    let u = b.id2node(tail);
    let v = b.id2node(head);
    let edge = b.add_edge(u, v);
    b.edge2id(edge)
}

/// `Builder::num_edges` of a builder: the number of edges added so far.
#[verifier::external_body]
pub(crate) fn builder_num_edges(b: &LinkedListGraphBuilder<usize, (), ()>) -> (n: usize)
    ensures
        n == builder_edges(*b).len(),
{
    b.num_edges()
}

/// `Builder::into_graph`: the finished graph has the builder's nodes and
/// edges, under the same numbers.
#[verifier::external_body]
pub(crate) fn into_graph(b: LinkedListGraphBuilder<usize, (), ()>) -> (g: LinkedListGraph<usize, (), ()>)
    ensures
        graph_nodes(g) == builder_nodes(b),
        graph_edges(g) == builder_edges(b),
{
    b.into_graph()
}

/// `FiniteGraph::num_edges` of a finished graph.
#[verifier::external_body]
pub(crate) fn graph_num_edges(g: &LinkedListGraph<usize, (), ()>) -> (n: usize)
    ensures
        n == graph_edges(*g).len(),
{
    g.num_edges()
}

/// `FiniteDigraph::src`: the tail of the edge with the given number.
#[verifier::external_body]
pub(crate) fn edge_src(g: &LinkedListGraph<usize, (), ()>, edge: usize) -> (tail: usize)
    requires
        edge < graph_edges(*g).len(),
    ensures
        tail == graph_edges(*g)[edge as int].0,
{
    g.node_id(g.src(g.id2edge(edge)))
}

/// `FiniteDigraph::snk`: the head of the edge with the given number.
#[verifier::external_body]
pub(crate) fn edge_snk(g: &LinkedListGraph<usize, (), ()>, edge: usize) -> (head: usize)
    requires
        edge < graph_edges(*g).len(),
    ensures
        head == graph_edges(*g)[edge as int].1,
{
    g.node_id(g.snk(g.id2edge(edge)))
}

/// `Directed::inedges`: the tails of the edges that enter `node`. Nothing
/// is claimed of their order, nor of how often a tail is listed.
#[verifier::external_body]
pub(crate) fn in_neighbors(g: &LinkedListGraph<usize, (), ()>, node: usize) -> (tails: Vec<usize>)
    requires
        node < graph_nodes(*g),
    ensures
        forall|u: usize| tails@.contains(u) <==> graph_edges(*g).contains((u, node)),
{
    g.inedges(g.id2node(node)).map(|(_, u)| g.node_id(u)).collect()
}

/// The capacity that the network gives every edge.
pub fn unit_capacity() -> (c: usize)
    ensures
        c == 1,
{
    1
}

/// What `rs_graph::maxflow::pushrelabel` returns on the graph with `nodes`
/// nodes and the edges `edges`, every edge at capacity one, from `src` to
/// `snk`: the flow value, and the nodes on the source side of its cut.
pub uninterp spec fn pushrelabel_unit(nodes: nat, edges: Seq<Arc>, src: usize, snk: usize) -> (usize, Seq<usize>);

/// `rs_graph::maxflow::pushrelabel` with unit capacities. The result is a
/// function of the graph and the two terminals; nothing more is claimed of
/// it here. The outside function refuses equal terminals.
#[verifier::external_body]
pub(crate) fn max_flow(g: &LinkedListGraph<usize, (), ()>, src: usize, snk: usize) -> (r: (usize, Vec<usize>))
    requires
        src < graph_nodes(*g),
        snk < graph_nodes(*g),
        src != snk,
    ensures
        (r.0, r.1@) == pushrelabel_unit(graph_nodes(*g), graph_edges(*g), src, snk),
{
    let (value, _, side) = pushrelabel(g, g.id2node(src), g.id2node(snk), |_| unit_capacity());
    (value, side.iter().map(|u| g.node_id(*u)).collect())
}

} // verus!
