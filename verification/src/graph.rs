//! The flow network in the making and the finished one, both resting on
//! `rs_graph`'s linked-list graph.

use crate::error::BladeError;
use crate::ancestors::{
    ancestors, ancestors_upto, back_path, closed_back, is_ancestor, lemma_closed_holds_path,
    lemma_marked_bound, lemma_marked_clear, lemma_marked_set, lemma_reaches_back_self,
    lemma_reaches_back_step, marked, reaches_back,
};
use crate::cut::{crossing, cut_of, is_walk, lemma_cut_separates, side_set};
use crate::flow::{
    add_edge, add_node, builder_edges, builder_nodes, builder_num_edges, edge_snk, edge_src,
    graph_edges, graph_nodes, graph_num_edges, in_neighbors, into_graph, max_flow, new_builder,
    pushrelabel_unit,
};
use crate::ir::{Function, Inst, Value};
use crate::network::{BladeNode, Network, SINK_NODE, SOURCE_NODE, value_node};
use rs_graph::linkedlistgraph::{LinkedListGraph, LinkedListGraphBuilder};
use vstd::prelude::*;

verus! {

/// A flow network under construction.
pub struct BladeGraphBuilder {
    /// The builder of the graph itself.
    graph: LinkedListGraphBuilder<usize, (), ()>,
    /// The single source node; edges run from it to the sources.
    source_node: usize,
    /// The single sink node; edges run to it from the sinks.
    sink_node: usize,
    /// For each node what it stands for; the two terminals stand for
    /// nothing.
    node_to_bladenode_map: Vec<Option<BladeNode>>,
    /// For each value its node.
    value_to_node_map: Vec<usize>,
}

/// A finished flow network.
pub struct BladeGraph {
    /// The graph itself.
    graph: LinkedListGraph<usize, (), ()>,
    /// The single source node.
    source_node: usize,
    /// The single sink node.
    sink_node: usize,
    /// For each node what it stands for.
    node_to_bladenode_map: Vec<Option<BladeNode>>,
    /// For each value its node.
    value_to_node_map: Vec<usize>,
}

impl BladeGraphBuilder {
    /// The network built so far.
    pub closed spec fn view(&self) -> Network {
        Network {
            labels: self.node_to_bladenode_map@,
            edges: builder_edges(self.graph),
            values: self.value_to_node_map@.len(),
        }
    }

    /// The tables agree with the graph, and the network built so far is
    /// well formed.
    pub closed spec fn wf(&self) -> bool {
        &&& self@.wf()
        &&& self.source_node == SOURCE_NODE
        &&& self.sink_node == SINK_NODE
        &&& builder_nodes(self.graph) == self.node_to_bladenode_map@.len()
        &&& forall|v: int|
            0 <= v < self.value_to_node_map@.len() ==> #[trigger] self.value_to_node_map@[v] == v + 2
    }

    /// A builder that holds the two terminals and a node for each value of
    /// `func`, and no edge yet. Fails if the graph cannot number that many
    /// nodes.
    pub fn with_nodes_for_func(func: &Function) -> (r: Result<BladeGraphBuilder, BladeError>)
        requires
            func.wf(),
        ensures
            match r {
                Ok(b) => b.wf() && b@ == Network::for_values(func@.values.len()) && func@.values.len() + 3
                    < usize::MAX,
                Err(e) => e == BladeError::NetworkTooLarge && func@.values.len() + 3 >= usize::MAX,
            },
    {
        let nvalues = func.num_values();
        if nvalues >= usize::MAX - 3 {
            return Err(BladeError::NetworkTooLarge);
        }
        let mut gg = new_builder();
        let mut node_to_bladenode_map: Vec<Option<BladeNode>> = Vec::new();
        let mut value_to_node_map: Vec<usize> = Vec::new();
        let source_node = add_node(&mut gg);
        node_to_bladenode_map.push(None);
        let sink_node = add_node(&mut gg);
        node_to_bladenode_map.push(None);
        let mut v: usize = 0;
        while v < nvalues
            invariant
                v <= nvalues,
                nvalues + 3 < usize::MAX,
                builder_nodes(gg) == v + 2,
                builder_edges(gg) == Seq::<(usize, usize)>::empty(),
                value_to_node_map@.len() == v,
                forall|j: int| 0 <= j < v ==> #[trigger] value_to_node_map@[j] == j + 2,
                node_to_bladenode_map@ =~= Network::for_values(v as nat).labels,
            decreases nvalues - v,
        {
            let node = add_node(&mut gg);
            node_to_bladenode_map.push(Some(BladeNode::ValueDef(Value(v))));
            value_to_node_map.push(node);
            v = v + 1;
        }
        let b = BladeGraphBuilder {
            graph: gg,
            source_node,
            sink_node,
            node_to_bladenode_map,
            value_to_node_map,
        };
        proof {
            assert(b@ =~= Network::for_values(nvalues as nat));
            let net = b@;
            assert forall|j: int| 0 <= j < net.values implies #[trigger] net.labels[j + 2] == Some(
                BladeNode::ValueDef(Value(j as usize)),
            ) by {}
        }
        Ok(b)
    }

    /// The node that stands for a value.
    pub fn node_of_value(&self, v: Value) -> (node: usize)
        requires
            self.wf(),
            v.0 < self@.values,
        ensures
            node == value_node(v),
            self@.is_value_node(node),
            self@.is_interior(node),
    {
        let node = self.value_to_node_map[v.0];
        proof {
            assert(self@.labels[v.0 + 2] == Some(BladeNode::ValueDef(v)));
        }
        node
    }

    /// Adds an edge after testing that the graph can number it.
    fn add_checked_edge(&mut self, tail: usize, head: usize) -> (r: Result<(), BladeError>)
        requires
            old(self).wf(),
            old(self)@.arc_wf((tail, head)),
        ensures
            final(self).wf(),
            match r {
                Ok(()) => old(self)@.add_edge(tail, head) == Ok::<Network, BladeError>(final(self)@),
                Err(e) => old(self)@.add_edge(tail, head) == Err::<Network, BladeError>(e) && final(self)@
                    == old(self)@,
            },
    {
        let edges = builder_num_edges(&self.graph);
        if edges > (usize::MAX - 3) / 2 {
            return Err(BladeError::NetworkTooLarge);
        }
        let _ = add_edge(&mut self.graph, tail, head);
        proof {
            let net = self@;
            let before = old(self)@;
            assert(net == before.with_edge(tail, head));
            assert forall|k: int| 0 <= k < net.edges.len() implies net.arc_wf(#[trigger] net.edges[k]) by {
                if k < before.edges.len() {
                    assert(before.arc_wf(before.edges[k]));
                }
            }
        }
        Ok(())
    }

    /// Marks the given value as a source: adds the edge from the global
    /// source to its node.
    pub fn mark_as_source(&mut self, src: Value) -> (r: Result<(), BladeError>)
        requires
            old(self).wf(),
            src.0 < old(self)@.values,
        ensures
            final(self).wf(),
            match r {
                Ok(()) => old(self)@.add_edge(SOURCE_NODE, value_node(src)) == Ok::<Network, BladeError>(
                    final(self)@,
                ),
                Err(e) => old(self)@.add_edge(SOURCE_NODE, value_node(src)) == Err::<
                    Network,
                    BladeError,
                >(e) && final(self)@ == old(self)@,
            },
    {
        let node = self.node_of_value(src);
        self.add_checked_edge(self.source_node, node)
    }

    /// Adds an edge from the given node to the node of the given value.
    pub fn add_edge_from_node_to_value(&mut self, from: usize, to: Value) -> (r: Result<(), BladeError>)
        requires
            old(self).wf(),
            old(self)@.has_node(from),
            from != SINK_NODE,
            to.0 < old(self)@.values,
        ensures
            final(self).wf(),
            match r {
                Ok(()) => old(self)@.add_edge(from, value_node(to)) == Ok::<Network, BladeError>(
                    final(self)@,
                ),
                Err(e) => old(self)@.add_edge(from, value_node(to)) == Err::<Network, BladeError>(e)
                    && final(self)@ == old(self)@,
            },
    {
        let node = self.node_of_value(to);
        self.add_checked_edge(from, node)
    }

    /// Adds an edge from the node of the given value to the given interior
    /// node.
    pub fn add_edge_from_value_to_node(&mut self, from: Value, to: usize) -> (r: Result<(), BladeError>)
        requires
            old(self).wf(),
            from.0 < old(self)@.values,
            old(self)@.is_interior(to),
        ensures
            final(self).wf(),
            match r {
                Ok(()) => old(self)@.add_edge(value_node(from), to) == Ok::<Network, BladeError>(
                    final(self)@,
                ),
                Err(e) => old(self)@.add_edge(value_node(from), to) == Err::<Network, BladeError>(e)
                    && final(self)@ == old(self)@,
            },
    {
        let node = self.node_of_value(from);
        self.add_checked_edge(node, to)
    }

    /// Adds a sink node for the given instruction, with its edge to the
    /// global sink, and returns the node.
    pub fn add_sink_node_for_inst(&mut self, inst: Inst) -> (r: Result<usize, BladeError>)
        requires
            old(self).wf(),
        ensures
            final(self).wf(),
            match r {
                Ok(node) => old(self)@.add_sink(inst) == Ok::<Network, BladeError>(final(self)@) && node
                    == old(self)@.labels.len() && final(self)@.is_interior(node),
                Err(e) => old(self)@.add_sink(inst) == Err::<Network, BladeError>(e) && final(self)@
                    == old(self)@,
            },
    {
        let nodes = self.node_to_bladenode_map.len();
        let edges = builder_num_edges(&self.graph);
        if nodes >= usize::MAX - 1 || edges > (usize::MAX - 3) / 2 {
            return Err(BladeError::NetworkTooLarge);
        }
        let inst_sink_node = add_node(&mut self.graph);
        self.node_to_bladenode_map.push(Some(BladeNode::Sink(inst)));
        let _ = add_edge(&mut self.graph, inst_sink_node, self.sink_node);
        proof {
            let net = self@;
            let before = old(self)@;
            assert(net == before.with_sink_node(inst).with_edge(before.labels.len() as usize, SINK_NODE));
            assert forall|j: int| 0 <= j < net.values implies #[trigger] net.labels[j + 2] == Some(
                BladeNode::ValueDef(Value(j as usize)),
            ) by {
                assert(before.labels[j + 2] == net.labels[j + 2]);
            }
            assert forall|n: int| net.values + 2 <= n < net.labels.len() implies (#[trigger] net.labels[n]) is Some
                && net.labels[n].unwrap() is Sink by {
                if n < before.labels.len() {
                    assert(before.labels[n] == net.labels[n]);
                }
            }
            assert forall|k: int| 0 <= k < net.edges.len() implies net.arc_wf(#[trigger] net.edges[k]) by {
                if k < before.edges.len() {
                    assert(before.arc_wf(before.edges[k]));
                    assert(before.labels[before.edges[k].0 as int] == net.labels[net.edges[k].0 as int]);
                    assert(before.labels[before.edges[k].1 as int] == net.labels[net.edges[k].1 as int]);
                }
            }
        }
        Ok(inst_sink_node)
    }

    /// Finishes the network.
    pub fn build(self) -> (g: BladeGraph)
        requires
            self.wf(),
        ensures
            g.wf(),
            g@ == self@,
    {
        BladeGraph {
            graph: into_graph(self.graph),
            source_node: self.source_node,
            sink_node: self.sink_node,
            node_to_bladenode_map: self.node_to_bladenode_map,
            value_to_node_map: self.value_to_node_map,
        }
    }
}

impl BladeGraph {
    /// The network.
    pub closed spec fn view(&self) -> Network {
        Network {
            labels: self.node_to_bladenode_map@,
            edges: graph_edges(self.graph),
            values: self.value_to_node_map@.len(),
        }
    }

    /// The tables agree with the graph, and the network is well formed.
    pub closed spec fn wf(&self) -> bool {
        &&& self@.wf()
        &&& self.source_node == SOURCE_NODE
        &&& self.sink_node == SINK_NODE
        &&& graph_nodes(self.graph) == self.node_to_bladenode_map@.len()
    }

    /// The network of a well-formed graph is well formed.
    pub proof fn lemma_network_wf(&self)
        requires
            self.wf(),
        ensures
            self@.wf(),
    {
    }

    /// The number of nodes, the two terminals included.
    pub fn num_nodes(&self) -> (n: usize)
        requires
            self.wf(),
        ensures
            n == self@.labels.len(),
    {
        self.node_to_bladenode_map.len()
    }

    /// The number of edges.
    pub fn num_edges(&self) -> (n: usize)
        requires
            self.wf(),
        ensures
            n == self@.edges.len(),
    {
        graph_num_edges(&self.graph)
    }

    /// The node that an edge leaves and the node that it enters.
    pub fn edge_ends(&self, edge: usize) -> (ends: (usize, usize))
        requires
            self.wf(),
            edge < self@.edges.len(),
        ensures
            ends == self@.edges[edge as int],
            self@.arc_wf(ends),
    {
        (edge_src(&self.graph, edge), edge_snk(&self.graph, edge))
    }

    /// What a node stands for; the two terminals stand for nothing.
    pub fn bladenode(&self, node: usize) -> (label: Option<BladeNode>)
        requires
            self.wf(),
            self@.has_node(node),
        ensures
            label == self@.labels[node as int],
    {
        self.node_to_bladenode_map[node]
    }

    /// The cut that a flow solver's answer stands for: `side` lists the
    /// nodes on the source side, `value` is the flow value. The edges of
    /// the cut come in ascending order.
    ///
    /// Fails if `side` does not split the network between source and sink,
    /// or if the number of edges that leave it differs from `value`.
    pub fn cut_from_side(&self, side: &Vec<usize>, value: usize) -> (r: Result<Vec<usize>, BladeError>)
        requires
            self.wf(),
        ensures
            match r {
                Ok(cut) => cut_of(self@, side@, value) == Ok::<Seq<usize>, BladeError>(cut@),
                Err(e) => cut_of(self@, side@, value) == Err::<Seq<usize>, BladeError>(e),
            },
    {
        let nodes = self.node_to_bladenode_map.len();
        let mut inside: Vec<bool> = Vec::new();
        let mut n: usize = 0;
        while n < nodes
            invariant
                n <= nodes,
                inside@.len() == n,
                forall|x: int| 0 <= x < n ==> !(#[trigger] inside@[x]),
            decreases nodes - n,
        {
            inside.push(false);
            n = n + 1;
        }
        let mut k: usize = 0;
        while k < side.len()
            invariant
                self.wf(),
                nodes == self@.labels.len(),
                k <= side@.len(),
                inside@.len() == nodes,
                forall|j: int| 0 <= j < k ==> self@.has_node(#[trigger] side@[j]),
                forall|x: int|
                    0 <= x < nodes ==> (#[trigger] inside@[x] <==> exists|j: int|
                        0 <= j < k && side@[j] == x),
            decreases side@.len() - k,
        {
            let node = side[k];
            if node >= nodes {
                assert(!self@.has_node(side@[k as int]));
                return Err(BladeError::SolverFailure);
            }
            inside.set(node, true);
            k = k + 1;
        }
        proof {
            assert forall|x: usize| 0 <= x < nodes implies (inside@[x as int] <==> side_set(side@).contains(
                x,
            )) by {
                if side@.contains(x) {
                    let j = choose|j: int| 0 <= j < side@.len() && side@[j] == x;
                    assert(inside@[x as int]);
                }
            }
        }
        if !inside[self.source_node] || inside[self.sink_node] {
            return Err(BladeError::SolverFailure);
        }
        let edges = graph_num_edges(&self.graph);
        let mut cut: Vec<usize> = Vec::new();
        let mut e: usize = 0;
        while e < edges
            invariant
                self.wf(),
                nodes == self@.labels.len(),
                edges == self@.edges.len(),
                e <= edges,
                inside@.len() == nodes,
                forall|x: usize|
                    0 <= x < nodes ==> (#[trigger] inside@[x as int] <==> side_set(side@).contains(x)),
                cut@ == crossing(self@.edges, side_set(side@), e as int),
            decreases edges - e,
        {
            let tail = edge_src(&self.graph, e);
            let head = edge_snk(&self.graph, e);
            assert(self@.arc_wf(self@.edges[e as int]));
            if inside[tail] && !inside[head] {
                cut.push(e);
            }
            e = e + 1;
        }
        if cut.len() != value {
            return Err(BladeError::SolverFailure);
        }
        Ok(cut)
    }

    /// The edges of a minimum cut between the source and the sink, as the
    /// push-relabel solver finds it, in ascending order.
    pub fn min_cut(&self) -> (r: Result<Vec<usize>, BladeError>)
        requires
            self.wf(),
        ensures
            match r {
                Ok(cut) => self.spec_min_cut() == Ok::<Seq<usize>, BladeError>(cut@),
                Err(e) => self.spec_min_cut() == Err::<Seq<usize>, BladeError>(e),
            },
    {
        let (value, side) = max_flow(&self.graph, self.source_node, self.sink_node);
        self.cut_from_side(&side, value)
    }

    /// Whether the given node is a source node: one that an edge from the
    /// global source enters.
    pub fn is_source_node(&self, node: usize) -> (r: bool)
        requires
            self.wf(),
            self@.has_node(node),
        ensures
            r == self@.is_source_node(node),
    {
        let tails = in_neighbors(&self.graph, node);
        let mut k: usize = 0;
        while k < tails.len()
            invariant
                k <= tails@.len(),
                self.source_node == SOURCE_NODE,
                forall|u: usize| #[trigger] tails@.contains(u) <==> self@.has_edge(u, node),
                forall|j: int| 0 <= j < k ==> #[trigger] tails@[j] != self.source_node,
            decreases tails@.len() - k,
        {
            if tails[k] == self.source_node {
                assert(tails@.contains(tails@[k as int]));
                return true;
            }
            k = k + 1;
        }
        proof {
            if self@.has_edge(SOURCE_NODE, node) {
                assert(tails@.contains(SOURCE_NODE));
                let j = choose|j: int| 0 <= j < tails@.len() && #[trigger] tails@[j] == SOURCE_NODE;
                assert(tails@[j] != self.source_node);
            }
        }
        false
    }

    /// The source nodes that tracing back from `node` arrives at, in
    /// ascending order. The trace follows edges backwards and stops at each
    /// source node that it meets; a source node is its own only ancestor.
    pub fn ancestors_of(&self, node: usize) -> (sources: Vec<usize>)
        requires
            self.wf(),
            self@.has_node(node),
        ensures
            sources@ == ancestors(self@, node),
    {
        let ghost net = self@;
        let nodes = self.node_to_bladenode_map.len();
        let mut visited: Vec<bool> = Vec::new();
        let mut found: Vec<bool> = Vec::new();
        let mut n: usize = 0;
        while n < nodes
            invariant
                n <= nodes,
                visited@.len() == n,
                found@.len() == n,
                forall|x: int| 0 <= x < n ==> !(#[trigger] visited@[x]),
                forall|x: int| 0 <= x < n ==> !(#[trigger] found@[x]),
            decreases nodes - n,
        {
            visited.push(false);
            found.push(false);
            n = n + 1;
        }
        proof {
            lemma_marked_clear(visited@, nodes as int);
            lemma_marked_set(visited@, node as int, nodes as int);
            lemma_reaches_back_self(net, node);
        }
        // the nodes met so far, in the order in which they were met
        let mut order: Vec<usize> = Vec::new();
        visited.set(node, true);
        order.push(node);
        assert(order@[0] == node);
        let mut head: usize = 0;
        while head < order.len()
            invariant
                self.wf(),
                net == self@,
                nodes == net.labels.len(),
                node < nodes,
                visited@.len() == nodes,
                found@.len() == nodes,
                head <= order@.len(),
                order@.len() == marked(visited@, nodes as int),
                visited@[node as int],
                forall|k: int| 0 <= k < order@.len() ==> #[trigger] order@[k] < nodes && visited@[order@[k] as int],
                forall|x: usize| x < nodes && #[trigger] visited@[x as int] ==> order@.contains(x),
                forall|x: usize| x < nodes && #[trigger] visited@[x as int] ==> reaches_back(net, node, x),
                forall|k: int, u: usize|
                    0 <= k < head && !net.is_source_node(order@[k]) && #[trigger] net.has_edge(u, order@[k])
                        ==> u < nodes && visited@[u as int],
                forall|x: usize|
                    x < nodes ==> (#[trigger] found@[x as int] <==> net.is_source_node(x) && exists|k: int|
                        0 <= k < head && order@[k] == x),
            decreases nodes - head,
        {
            proof {
                lemma_marked_bound(visited@, nodes as int);
            }
            let x = order[head];
            if self.is_source_node(x) {
                found.set(x, true);
            } else {
                let tails = in_neighbors(&self.graph, x);
                let mut p: usize = 0;
                while p < tails.len()
                    invariant
                        self.wf(),
                        net == self@,
                        nodes == net.labels.len(),
                        node < nodes,
                        visited@.len() == nodes,
                        found@.len() == nodes,
                        head < order@.len(),
                        x == order@[head as int],
                        x < nodes,
                        !net.is_source_node(x),
                        p <= tails@.len(),
                        forall|u: usize| #[trigger] tails@.contains(u) <==> net.has_edge(u, x),
                        forall|j: int| 0 <= j < p ==> #[trigger] tails@[j] < nodes && visited@[tails@[j] as int],
                        order@.len() == marked(visited@, nodes as int),
                        visited@[node as int],
                        forall|k: int|
                            0 <= k < order@.len() ==> #[trigger] order@[k] < nodes && visited@[order@[k] as int],
                        forall|x: usize| x < nodes && #[trigger] visited@[x as int] ==> order@.contains(x),
                        forall|x: usize|
                            x < nodes && #[trigger] visited@[x as int] ==> reaches_back(net, node, x),
                        forall|k: int, u: usize|
                            0 <= k < head && !net.is_source_node(order@[k]) && #[trigger] net.has_edge(
                                u,
                                order@[k],
                            ) ==> u < nodes && visited@[u as int],
                        forall|x: usize|
                            x < nodes ==> (#[trigger] found@[x as int] <==> net.is_source_node(x) && exists|
                                k: int,
                            |
                                0 <= k < head && order@[k] == x),
                    decreases tails@.len() - p,
                {
                    let u = tails[p];
                    proof {
                        assert(tails@.contains(tails@[p as int]));
                        assert(net.has_edge(u, x));
                        let e = choose|e: int| 0 <= e < net.edges.len() && net.edges[e] == (u, x);
                        assert(net.arc_wf(net.edges[e]));
                    }
                    if !visited[u] {
                        let ghost before = visited@;
                        let ghost met = order@;
                        proof {
                            lemma_marked_set(visited@, u as int, nodes as int);
                            lemma_reaches_back_step(net, node, x, u);
                        }
                        visited.set(u, true);
                        order.push(u);
                        proof {
                            assert forall|y: usize| y < nodes && #[trigger] visited@[y as int] implies order@.contains(
                                y,
                            ) by {
                                if y == u {
                                    assert(order@[met.len() as int] == u);
                                } else {
                                    assert(before[y as int]);
                                    let k = choose|k: int| 0 <= k < met.len() && met[k] == y;
                                    assert(order@[k] == y);
                                }
                            }
                            assert forall|k: int| 0 <= k < order@.len() implies #[trigger] order@[k] < nodes
                                && visited@[order@[k] as int] by {
                                if k < met.len() {
                                    assert(met[k] < nodes && before[met[k] as int]);
                                }
                            }
                            assert forall|y: usize| y < nodes implies (#[trigger] found@[y as int]
                                <==> net.is_source_node(y) && exists|k: int| 0 <= k < head && order@[k] == y) by {
                                if net.is_source_node(y) && exists|k: int| 0 <= k < head && met[k] == y {
                                    let k = choose|k: int| 0 <= k < head && met[k] == y;
                                    assert(order@[k] == y);
                                }
                                if net.is_source_node(y) && exists|k: int| 0 <= k < head && order@[k] == y {
                                    let k = choose|k: int| 0 <= k < head && order@[k] == y;
                                    assert(met[k] == y);
                                }
                            }
                            assert forall|k: int, w: usize|
                                0 <= k < head && !net.is_source_node(order@[k]) && #[trigger] net.has_edge(
                                    w,
                                    order@[k],
                                ) implies w < nodes && visited@[w as int] by {
                                assert(met[k] == order@[k]);
                                assert(net.has_edge(w, met[k]));
                            }
                        }
                    }
                    p = p + 1;
                }
                proof {
                    assert forall|w: usize| #[trigger] net.has_edge(w, x) implies w < nodes
                        && visited@[w as int] by {
                        assert(tails@.contains(w));
                        let j = choose|j: int| 0 <= j < tails@.len() && tails@[j] == w;
                        assert(tails@[j] < nodes);
                    }
                }
            }
            proof {
                assert forall|y: usize| y < nodes implies (#[trigger] found@[y as int] <==> net.is_source_node(
                    y,
                ) && exists|k: int| 0 <= k < head + 1 && order@[k] == y) by {
                    if net.is_source_node(y) && exists|k: int| 0 <= k < head + 1 && order@[k] == y {
                        let k = choose|k: int| 0 <= k < head + 1 && order@[k] == y;
                        if k < head {
                        }
                    }
                }
            }
            head = head + 1;
        }
        proof {
            assert(closed_back(net, visited@)) by {
                assert forall|y: usize, u: usize|
                    y < visited@.len() && visited@[y as int] && !net.is_source_node(y) && #[trigger] net.has_edge(
                        u,
                        y,
                    ) implies u < visited@.len() && visited@[u as int] by {
                    assert(order@.contains(y));
                    let k = choose|k: int| 0 <= k < order@.len() && order@[k] == y;
                    assert(net.has_edge(u, order@[k]));
                }
            }
            assert forall|s: usize| s < nodes implies (#[trigger] found@[s as int] <==> is_ancestor(
                net,
                s,
                node,
            )) by {
                if found@[s as int] {
                    let k = choose|k: int| 0 <= k < head && order@[k] == s;
                    assert(visited@[order@[k] as int]);
                }
                if is_ancestor(net, s, node) {
                    let path = choose|path: Seq<usize>| back_path(net, path, node, s);
                    lemma_closed_holds_path(net, visited@, path, node, s, path.len() - 1);
                    assert(order@.contains(s));
                    let k = choose|k: int| 0 <= k < order@.len() && order@[k] == s;
                    assert(found@[s as int]);
                }
            }
        }
        let mut sources: Vec<usize> = Vec::new();
        let mut s: usize = 0;
        while s < nodes
            invariant
                s <= nodes,
                found@.len() == nodes,
                forall|y: usize| y < nodes ==> (#[trigger] found@[y as int] <==> is_ancestor(net, y, node)),
                sources@ == ancestors_upto(net, node, s as int),
            decreases nodes - s,
        {
            if found[s] {
                sources.push(s);
            }
            s = s + 1;
        }
        sources
    }

    /// Whatever cut `min_cut` returns, removing it leaves no way from the
    /// source to the sink, and it has as many edges as the solver gives for
    /// the value of the maximum flow.
    pub proof fn lemma_min_cut_separates(&self, walk: Seq<int>)
        requires
            self.wf(),
            self.spec_min_cut() is Ok,
            is_walk(self@, walk, SOURCE_NODE, SINK_NODE),
        ensures
            exists|i: int|
                0 <= i < walk.len() && self.spec_min_cut().unwrap().contains(#[trigger] walk[i] as usize),
            self.spec_min_cut().unwrap().len() == pushrelabel_unit(
                self@.labels.len(),
                self@.edges,
                SOURCE_NODE,
                SINK_NODE,
            ).0,
    {
        let answer = pushrelabel_unit(self@.labels.len(), self@.edges, SOURCE_NODE, SINK_NODE);
        lemma_cut_separates(self@, answer.1, answer.0, walk);
    }

    /// What `min_cut` returns: the cut that the solver's answer on this
    /// network stands for.
    pub open spec fn spec_min_cut(&self) -> Result<Seq<usize>, BladeError> {
        solved_cut(self@)
    }
}

/// The cut of a network that the push-relabel solver's answer stands for.
pub open spec fn solved_cut(net: Network) -> Result<Seq<usize>, BladeError> {
    let answer = pushrelabel_unit(net.labels.len(), net.edges, SOURCE_NODE, SINK_NODE);
    cut_of(net, answer.1, answer.0)
}

} // verus!
