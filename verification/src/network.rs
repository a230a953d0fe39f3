//! The flow network as a mathematical value: numbered nodes, each terminal
//! or labelled with the value or sink instruction that it stands for, and
//! a list of unit-capacity edges.

use crate::error::BladeError;
use crate::flow::Arc;
use crate::ir::{Inst, Value};
use vstd::prelude::*;

verus! {

/// What an interior node of the flow network stands for.
#[derive(Clone, Copy, Debug, PartialEq, Eq, Hash, Structural)]
pub enum BladeNode {
    /// The definition of a value: data that may be tainted and may taint.
    ValueDef(Value),
    /// The point at which an instruction consumes what must not leak.
    Sink(Inst),
}

/// The node number of the global source.
pub const SOURCE_NODE: usize = 0;

/// The node number of the global sink.
pub const SINK_NODE: usize = 1;

/// The node that stands for the value `v`: value nodes follow the two
/// terminals, in the order of the value numbers.
pub open spec fn value_node(v: Value) -> usize {
    (v.0 + 2) as usize
}

/// A flow network.
pub struct Network {
    /// For each node its label; the two terminals have none.
    pub labels: Seq<Option<BladeNode>>,
    /// The edges, each from its first to its second node. An edge's number
    /// is its index.
    pub edges: Seq<Arc>,
    /// How many values have a node.
    pub values: nat,
}

impl Network {
    /// The network with the two terminals and one node for each of `n`
    /// values, without edges.
    pub open spec fn for_values(n: nat) -> Network {
        Network {
            labels: seq![None, None] + Seq::new(n, |v: int| Some(BladeNode::ValueDef(Value(v as usize)))),
            edges: Seq::empty(),
            values: n,
        }
    }

    pub open spec fn has_node(self, node: usize) -> bool {
        node < self.labels.len()
    }

    /// The node is neither the source nor the sink.
    pub open spec fn is_interior(self, node: usize) -> bool {
        self.has_node(node) && node != SOURCE_NODE && node != SINK_NODE
    }

    /// The node stands for a value.
    pub open spec fn is_value_node(self, node: usize) -> bool {
        self.has_node(node) && self.labels[node as int] is Some
            && self.labels[node as int].unwrap() is ValueDef
    }

    /// The node stands for the sink of an instruction.
    pub open spec fn is_sink_node(self, node: usize) -> bool {
        self.has_node(node) && self.labels[node as int] is Some
            && self.labels[node as int].unwrap() is Sink
    }

    pub open spec fn has_edge(self, tail: usize, head: usize) -> bool {
        self.edges.contains((tail, head))
    }

    /// The node is the head of an edge from the global source.
    pub open spec fn is_source_node(self, node: usize) -> bool {
        self.has_edge(SOURCE_NODE, node)
    }

    /// The graph can number one more node.
    pub open spec fn can_add_node(self) -> bool {
        self.labels.len() + 1 < usize::MAX
    }

    /// The graph can number one more edge.
    pub open spec fn can_add_edge(self) -> bool {
        2 * self.edges.len() + 2 < usize::MAX
    }

    /// The network with one more edge.
    pub open spec fn with_edge(self, tail: usize, head: usize) -> Network {
        Network { edges: self.edges.push((tail, head)), ..self }
    }

    /// The network with one more node, labelled as the sink of `inst`.
    pub open spec fn with_sink_node(self, inst: Inst) -> Network {
        Network { labels: self.labels.push(Some(BladeNode::Sink(inst))), ..self }
    }

    /// The network with one more edge, if the graph can number it.
    pub open spec fn add_edge(self, tail: usize, head: usize) -> Result<Network, BladeError> {
        if self.can_add_edge() {
            Ok(self.with_edge(tail, head))
        } else {
            Err(BladeError::NetworkTooLarge)
        }
    }

    /// The network with a sink node for `inst` and the edge from it to the
    /// global sink, if the graph can number both.
    pub open spec fn add_sink(self, inst: Inst) -> Result<Network, BladeError> {
        if self.can_add_node() && self.can_add_edge() {
            Ok(self.with_sink_node(inst).with_edge(self.labels.len() as usize, SINK_NODE))
        } else {
            Err(BladeError::NetworkTooLarge)
        }
    }

    /// The nodes are labelled as the network's shape demands: the two
    /// terminals come first and have no label, the value nodes follow in
    /// the order of the values, and every further node is a sink node.
    pub open spec fn labels_wf(self) -> bool {
        &&& self.values + 2 <= self.labels.len() < usize::MAX
        &&& self.labels[SOURCE_NODE as int] is None
        &&& self.labels[SINK_NODE as int] is None
        &&& forall|v: int|
            0 <= v < self.values ==> #[trigger] self.labels[v + 2] == Some(
                BladeNode::ValueDef(Value(v as usize)),
            )
        &&& forall|n: int|
            self.values + 2 <= n < self.labels.len() ==> (#[trigger] self.labels[n]) is Some
                && self.labels[n].unwrap() is Sink
    }

    /// The edge runs between nodes of the network, does not enter the
    /// source nor leave the sink, leaves the source only for a value node
    /// and enters the sink only from a sink node.
    pub open spec fn arc_wf(self, arc: Arc) -> bool {
        &&& self.has_node(arc.0)
        &&& self.has_node(arc.1)
        &&& arc.0 != SINK_NODE
        &&& arc.1 != SOURCE_NODE
        &&& arc.0 == SOURCE_NODE ==> self.is_value_node(arc.1)
        &&& arc.1 == SINK_NODE ==> self.is_sink_node(arc.0)
    }

    /// The network is well formed.
    pub open spec fn wf(self) -> bool {
        &&& self.labels_wf()
        &&& 2 * self.edges.len() < usize::MAX
        &&& forall|k: int| 0 <= k < self.edges.len() ==> self.arc_wf(#[trigger] self.edges[k])
    }
}

/// Every node of a well-formed network but the two terminals has a label.
pub(crate) proof fn lemma_interior_labelled(net: Network, node: usize)
    requires
        net.wf(),
        net.is_interior(node),
    ensures
        net.labels[node as int] is Some,
{
    if node < net.values + 2 {
        assert(net.labels[(node - 2) + 2] == Some(BladeNode::ValueDef(Value((node - 2) as usize))));
    }
}

} // verus!
