//! Why each edge of a function's flow network is there: the network holds
//! no edge but those that mark a source, close a sink, lead into a sink
//! from one of its arguments, or follow a use of a value.

use crate::construct::{
    arg_edges, classify_blocks, classify_inst, classify_insts, dataflow_edges, flow_network,
    result_edges, sink_edges, source_edges, use_edges, uses_edges,
};
use crate::defuse::{uses_of, ValueUse};
use crate::flow::Arc;
use crate::ir::{BlockPredecessor, FunctionView, Inst, Value};
use crate::network::{value_node, BladeNode, Network, SINK_NODE, SOURCE_NODE};
use crate::shape::{is_sink_inst, is_source_inst, sink_args};
use vstd::prelude::*;

verus! {

/// The instruction exists and stands in a block.
pub open spec fn placed(f: FunctionView, inst: Inst) -> bool {
    f.has_inst(inst) && f.insts[inst.0 as int].block is Some
}

/// The edge marks result `j` of the placed load or call `inst` as a
/// source.
pub open spec fn source_reason(f: FunctionView, inst: Inst, j: int, arc: Arc) -> bool {
    &&& placed(f, inst)
    &&& is_source_inst(f.insts[inst.0 as int].opcode)
    &&& 0 <= j < f.insts[inst.0 as int].results.len()
    &&& arc == (SOURCE_NODE, value_node(f.insts[inst.0 as int].results[j]))
}

/// The edge leads from a sink node to the global sink.
pub open spec fn sink_reason(labels: Seq<Option<BladeNode>>, arc: Arc) -> bool {
    &&& arc.1 == SINK_NODE
    &&& arc.0 < labels.len()
    &&& labels[arc.0 as int] is Some
    &&& labels[arc.0 as int].unwrap() is Sink
}

/// The edge leads from sink argument `k` of `inst` into the sink node of
/// `inst`.
pub open spec fn arg_reason(
    labels: Seq<Option<BladeNode>>,
    f: FunctionView,
    store_values_are_sinks: bool,
    inst: Inst,
    k: int,
    arc: Arc,
) -> bool {
    &&& arc.1 < labels.len()
    &&& labels[arc.1 as int] == Some(BladeNode::Sink(inst))
    &&& 0 <= k < sink_args(f, inst, store_values_are_sinks).len()
    &&& arc.0 == value_node(sink_args(f, inst, store_values_are_sinks)[k])
}

/// The use `u` hands its value on to the value at node `head`: `head` is a
/// result of the using instruction, or the block parameter that the value
/// is forwarded to.
pub open spec fn use_reaches(f: FunctionView, u: ValueUse, head: usize) -> bool {
    match u {
        ValueUse::Inst(inst) => exists|j: int|
            0 <= j < f.insts[inst.0 as int].results.len() && head == #[trigger] value_node(
                f.insts[inst.0 as int].results[j],
            ),
        ValueUse::Value(v) => head == value_node(v),
    }
}

/// The edge follows use number `k` of value number `v`.
pub open spec fn flow_reason(f: FunctionView, cfg: Seq<Seq<BlockPredecessor>>, v: int, k: int, arc: Arc) -> bool {
    &&& 0 <= v < f.values.len()
    &&& arc.0 == value_node(Value(v as usize))
    &&& 0 <= k < uses_of(f, cfg, Value(v as usize)).len()
    &&& use_reaches(f, uses_of(f, cfg, Value(v as usize))[k], arc.1)
}

/// The edge has a reason to be in the flow network of `f` whose nodes are
/// labelled `labels`.
pub open spec fn arc_justified(
    labels: Seq<Option<BladeNode>>,
    f: FunctionView,
    cfg: Seq<Seq<BlockPredecessor>>,
    store_values_are_sinks: bool,
    arc: Arc,
) -> bool {
    ||| exists|inst: Inst, j: int| #[trigger] source_reason(f, inst, j, arc)
    ||| sink_reason(labels, arc)
    ||| exists|inst: Inst, k: int| #[trigger] arg_reason(labels, f, store_values_are_sinks, inst, k, arc)
    ||| exists|v: int, k: int| #[trigger] flow_reason(f, cfg, v, k, arc)
}

/// Every edge of the network has a reason.
pub open spec fn all_justified(
    net: Network,
    f: FunctionView,
    cfg: Seq<Seq<BlockPredecessor>>,
    store_values_are_sinks: bool,
) -> bool {
    forall|e: int|
        0 <= e < net.edges.len() ==> arc_justified(net.labels, f, cfg, store_values_are_sinks, #[trigger] net.edges[e])
}

/// `longer` starts with the labels `labels`.
pub open spec fn starts_with(longer: Seq<Option<BladeNode>>, labels: Seq<Option<BladeNode>>) -> bool {
    labels.len() <= longer.len() && forall|n: int| 0 <= n < labels.len() ==> #[trigger] longer[n] == labels[n]
}

proof fn lemma_reason_stays(
    labels: Seq<Option<BladeNode>>,
    longer: Seq<Option<BladeNode>>,
    f: FunctionView,
    cfg: Seq<Seq<BlockPredecessor>>,
    flag: bool,
    arc: Arc,
)
    requires
        starts_with(longer, labels),
        arc_justified(labels, f, cfg, flag, arc),
    ensures
        arc_justified(longer, f, cfg, flag, arc),
{
    if sink_reason(labels, arc) {
        assert(longer[arc.0 as int] == labels[arc.0 as int]);
        assert(sink_reason(longer, arc));
    } else if exists|inst: Inst, k: int| #[trigger] arg_reason(labels, f, flag, inst, k, arc) {
        let (inst, k) = choose|inst: Inst, k: int| #[trigger] arg_reason(labels, f, flag, inst, k, arc);
        assert(longer[arc.1 as int] == labels[arc.1 as int]);
        assert(arg_reason(longer, f, flag, inst, k, arc));
    }
}

proof fn lemma_edge_joins(net: Network, f: FunctionView, cfg: Seq<Seq<BlockPredecessor>>, flag: bool, arc: Arc)
    requires
        all_justified(net, f, cfg, flag),
        arc_justified(net.labels, f, cfg, flag, arc),
    ensures
        all_justified(net.with_edge(arc.0, arc.1), f, cfg, flag),
{
    let next = net.with_edge(arc.0, arc.1);
    assert forall|e: int| 0 <= e < next.edges.len() implies arc_justified(
        next.labels,
        f,
        cfg,
        flag,
        #[trigger] next.edges[e],
    ) by {
        if e < net.edges.len() {
            assert(next.edges[e] == net.edges[e]);
        } else {
            assert(next.edges[e] == arc);
        }
    }
}

proof fn lemma_labels_grow(net: Network, longer: Network, f: FunctionView, cfg: Seq<Seq<BlockPredecessor>>, flag: bool)
    requires
        all_justified(net, f, cfg, flag),
        longer.edges == net.edges,
        starts_with(longer.labels, net.labels),
    ensures
        all_justified(longer, f, cfg, flag),
{
    assert forall|e: int| 0 <= e < longer.edges.len() implies arc_justified(
        longer.labels,
        f,
        cfg,
        flag,
        #[trigger] longer.edges[e],
    ) by {
        lemma_reason_stays(net.labels, longer.labels, f, cfg, flag, net.edges[e]);
    }
}

proof fn lemma_source_edges_justified(
    net: Network,
    f: FunctionView,
    cfg: Seq<Seq<BlockPredecessor>>,
    flag: bool,
    inst: Inst,
    from: int,
)
    requires
        all_justified(net, f, cfg, flag),
        placed(f, inst),
        is_source_inst(f.insts[inst.0 as int].opcode),
        0 <= from,
        source_edges(net, f.insts[inst.0 as int].results, from) is Ok,
    ensures
        all_justified(source_edges(net, f.insts[inst.0 as int].results, from).unwrap(), f, cfg, flag),
        source_edges(net, f.insts[inst.0 as int].results, from).unwrap().labels == net.labels,
    decreases f.insts[inst.0 as int].results.len() - from,
{
    let results = f.insts[inst.0 as int].results;
    if from < results.len() {
        let arc = (SOURCE_NODE, value_node(results[from]));
        assert(source_reason(f, inst, from, arc));
        lemma_edge_joins(net, f, cfg, flag, arc);
        lemma_source_edges_justified(net.with_edge(arc.0, arc.1), f, cfg, flag, inst, from + 1);
    }
}

/// Argument `k` of `inst` is its sink argument number `k - offset`.
pub open spec fn is_sink_arg(f: FunctionView, inst: Inst, flag: bool, k: int, offset: int) -> bool {
    0 <= k - offset < sink_args(f, inst, flag).len() && sink_args(f, inst, flag)[k - offset]
        == f.insts[inst.0 as int].args[k]
}

proof fn lemma_arg_edges_justified(
    net: Network,
    f: FunctionView,
    cfg: Seq<Seq<BlockPredecessor>>,
    flag: bool,
    inst: Inst,
    node: usize,
    from: int,
    to: int,
    offset: int,
)
    requires
        all_justified(net, f, cfg, flag),
        0 <= offset <= from,
        node < net.labels.len(),
        net.labels[node as int] == Some(BladeNode::Sink(inst)),
        forall|k: int| from <= k < to ==> #[trigger] is_sink_arg(f, inst, flag, k, offset),
        arg_edges(net, f.insts[inst.0 as int].args, node, from, to) is Ok,
    ensures
        all_justified(arg_edges(net, f.insts[inst.0 as int].args, node, from, to).unwrap(), f, cfg, flag),
        arg_edges(net, f.insts[inst.0 as int].args, node, from, to).unwrap().labels == net.labels,
    decreases to - from,
{
    let args = f.insts[inst.0 as int].args;
    if from < to {
        let arc = (value_node(args[from]), node);
        assert(is_sink_arg(f, inst, flag, from, offset));
        assert(arg_reason(net.labels, f, flag, inst, from - offset, arc));
        lemma_edge_joins(net, f, cfg, flag, arc);
        lemma_arg_edges_justified(net.with_edge(arc.0, arc.1), f, cfg, flag, inst, node, from + 1, to, offset);
    }
}

proof fn lemma_sink_edges_justified(
    net: Network,
    f: FunctionView,
    cfg: Seq<Seq<BlockPredecessor>>,
    flag: bool,
    inst: Inst,
    from: int,
    to: int,
    offset: int,
)
    requires
        all_justified(net, f, cfg, flag),
        0 <= offset <= from,
        forall|k: int| from <= k < to ==> #[trigger] is_sink_arg(f, inst, flag, k, offset),
        sink_edges(net, inst, f.insts[inst.0 as int].args, from, to) is Ok,
    ensures
        all_justified(sink_edges(net, inst, f.insts[inst.0 as int].args, from, to).unwrap(), f, cfg, flag),
        sink_edges(net, inst, f.insts[inst.0 as int].args, from, to).unwrap().labels == net.labels.push(
            Some(BladeNode::Sink(inst)),
        ),
{
    let node = net.labels.len() as usize;
    let with_node = net.with_sink_node(inst);
    lemma_labels_grow(net, with_node, f, cfg, flag);
    let arc = (node, SINK_NODE);
    assert(with_node.labels[node as int] == Some(BladeNode::Sink(inst)));
    assert(sink_reason(with_node.labels, arc));
    lemma_edge_joins(with_node, f, cfg, flag, arc);
    lemma_arg_edges_justified(with_node.with_edge(node, SINK_NODE), f, cfg, flag, inst, node, from, to, offset);
}

proof fn lemma_classify_inst_justified(
    net: Network,
    f: FunctionView,
    cfg: Seq<Seq<BlockPredecessor>>,
    flag: bool,
    inst: Inst,
)
    requires
        all_justified(net, f, cfg, flag),
        placed(f, inst),
        f.insts[inst.0 as int].fixed <= f.insts[inst.0 as int].args.len(),
        classify_inst(net, f, inst, flag) is Ok,
    ensures
        all_justified(classify_inst(net, f, inst, flag).unwrap(), f, cfg, flag),
        starts_with(classify_inst(net, f, inst, flag).unwrap().labels, net.labels),
{
    let data = f.insts[inst.0 as int];
    let op = data.opcode;
    let len = data.args.len() as int;
    if op.spec_can_load() {
        lemma_source_edges_justified(net, f, cfg, flag, inst, 0);
        if !op.spec_is_fill() {
            let sourced = source_edges(net, data.results, 0).unwrap();
            assert forall|k: int| 0 <= k < len implies #[trigger] is_sink_arg(f, inst, flag, k, 0) by {}
            lemma_sink_edges_justified(sourced, f, cfg, flag, inst, 0, len, 0);
        }
    } else if op.spec_can_store() {
        if flag {
            assert forall|k: int| 0 <= k < len implies #[trigger] is_sink_arg(f, inst, flag, k, 0) by {}
            lemma_sink_edges_justified(net, f, cfg, flag, inst, 0, len, 0);
        } else if len == 0 {
            lemma_sink_edges_justified(net, f, cfg, flag, inst, 1, len, 0);
        } else {
            assert forall|k: int| 1 <= k < len implies #[trigger] is_sink_arg(f, inst, flag, k, 1) by {}
            lemma_sink_edges_justified(net, f, cfg, flag, inst, 1, len, 1);
        }
    } else if op.spec_is_branch() {
        assert forall|k: int| 0 <= k < data.fixed implies #[trigger] is_sink_arg(f, inst, flag, k, 0) by {}
        lemma_sink_edges_justified(net, f, cfg, flag, inst, 0, data.fixed as int, 0);
    } else if op.spec_is_call() {
        lemma_source_edges_justified(net, f, cfg, flag, inst, 0);
        let sourced = source_edges(net, data.results, 0).unwrap();
        assert forall|k: int| 0 <= k < len implies #[trigger] is_sink_arg(f, inst, flag, k, 0) by {}
        lemma_sink_edges_justified(sourced, f, cfg, flag, inst, 0, len, 0);
    }
}

proof fn lemma_starts_with_trans(
    a: Seq<Option<BladeNode>>,
    b: Seq<Option<BladeNode>>,
    c: Seq<Option<BladeNode>>,
)
    requires
        starts_with(b, a),
        starts_with(c, b),
    ensures
        starts_with(c, a),
{
    assert forall|n: int| 0 <= n < a.len() implies #[trigger] c[n] == a[n] by {
        assert(b[n] == a[n]);
    }
}

proof fn lemma_classify_insts_justified(
    net: Network,
    f: FunctionView,
    cfg: Seq<Seq<BlockPredecessor>>,
    flag: bool,
    insts: Seq<Inst>,
    from: int,
)
    requires
        f.wf(),
        all_justified(net, f, cfg, flag),
        forall|k: int| 0 <= k < insts.len() ==> placed(f, #[trigger] insts[k]),
        0 <= from,
        classify_insts(net, f, insts, flag, from) is Ok,
    ensures
        all_justified(classify_insts(net, f, insts, flag, from).unwrap(), f, cfg, flag),
        starts_with(classify_insts(net, f, insts, flag, from).unwrap().labels, net.labels),
    decreases insts.len() - from,
{
    if from < insts.len() {
        let inst = insts[from];
        assert(placed(f, inst));
        assert(f.insts[inst.0 as int].fixed <= f.insts[inst.0 as int].args.len());
        let next = classify_inst(net, f, inst, flag).unwrap();
        lemma_classify_inst_justified(net, f, cfg, flag, inst);
        lemma_classify_insts_justified(next, f, cfg, flag, insts, from + 1);
        lemma_starts_with_trans(net.labels, next.labels, classify_insts(net, f, insts, flag, from).unwrap().labels);
    }
}

proof fn lemma_classify_blocks_justified(
    net: Network,
    f: FunctionView,
    cfg: Seq<Seq<BlockPredecessor>>,
    flag: bool,
    from: int,
)
    requires
        f.wf(),
        all_justified(net, f, cfg, flag),
        0 <= from,
        classify_blocks(net, f, flag, from) is Ok,
    ensures
        all_justified(classify_blocks(net, f, flag, from).unwrap(), f, cfg, flag),
    decreases f.blocks.len() - from,
{
    if from < f.blocks.len() {
        let insts = f.blocks[from].insts;
        assert forall|k: int| 0 <= k < insts.len() implies placed(f, #[trigger] insts[k]) by {
            assert(f.has_inst(f.blocks[from].insts[k]));
        }
        lemma_classify_insts_justified(net, f, cfg, flag, insts, 0);
        lemma_classify_blocks_justified(classify_insts(net, f, insts, flag, 0).unwrap(), f, cfg, flag, from + 1);
    }
}

proof fn lemma_result_edges_justified(
    net: Network,
    f: FunctionView,
    cfg: Seq<Seq<BlockPredecessor>>,
    flag: bool,
    v: int,
    k: int,
    inst: Inst,
    from: int,
)
    requires
        all_justified(net, f, cfg, flag),
        0 <= v < f.values.len(),
        0 <= k < uses_of(f, cfg, Value(v as usize)).len(),
        uses_of(f, cfg, Value(v as usize))[k] == ValueUse::Inst(inst),
        0 <= from,
        result_edges(net, value_node(Value(v as usize)), f.insts[inst.0 as int].results, from) is Ok,
    ensures
        all_justified(
            result_edges(net, value_node(Value(v as usize)), f.insts[inst.0 as int].results, from).unwrap(),
            f,
            cfg,
            flag,
        ),
        result_edges(net, value_node(Value(v as usize)), f.insts[inst.0 as int].results, from).unwrap().labels
            == net.labels,
    decreases f.insts[inst.0 as int].results.len() - from,
{
    let results = f.insts[inst.0 as int].results;
    if from < results.len() {
        let arc = (value_node(Value(v as usize)), value_node(results[from]));
        assert(use_reaches(f, ValueUse::Inst(inst), arc.1));
        assert(flow_reason(f, cfg, v, k, arc));
        lemma_edge_joins(net, f, cfg, flag, arc);
        lemma_result_edges_justified(net.with_edge(arc.0, arc.1), f, cfg, flag, v, k, inst, from + 1);
    }
}

proof fn lemma_uses_edges_justified(
    net: Network,
    f: FunctionView,
    cfg: Seq<Seq<BlockPredecessor>>,
    flag: bool,
    v: int,
    from: int,
)
    requires
        all_justified(net, f, cfg, flag),
        0 <= v < f.values.len(),
        0 <= from,
        uses_edges(net, f, value_node(Value(v as usize)), uses_of(f, cfg, Value(v as usize)), from) is Ok,
    ensures
        all_justified(
            uses_edges(net, f, value_node(Value(v as usize)), uses_of(f, cfg, Value(v as usize)), from).unwrap(),
            f,
            cfg,
            flag,
        ),
        uses_edges(
            net,
            f,
            value_node(Value(v as usize)),
            uses_of(f, cfg, Value(v as usize)),
            from,
        ).unwrap().labels == net.labels,
    decreases uses_of(f, cfg, Value(v as usize)).len() - from,
{
    let uses = uses_of(f, cfg, Value(v as usize));
    let node = value_node(Value(v as usize));
    if from < uses.len() {
        let next = use_edges(net, f, node, uses[from]).unwrap();
        match uses[from] {
            ValueUse::Inst(inst) => {
                lemma_result_edges_justified(net, f, cfg, flag, v, from, inst, 0);
            },
            ValueUse::Value(w) => {
                let arc = (node, value_node(w));
                assert(flow_reason(f, cfg, v, from, arc));
                lemma_edge_joins(net, f, cfg, flag, arc);
            },
        }
        lemma_uses_edges_justified(next, f, cfg, flag, v, from + 1);
    }
}

proof fn lemma_dataflow_edges_justified(
    net: Network,
    f: FunctionView,
    cfg: Seq<Seq<BlockPredecessor>>,
    flag: bool,
    from: int,
)
    requires
        all_justified(net, f, cfg, flag),
        0 <= from,
        dataflow_edges(net, f, cfg, from) is Ok,
    ensures
        all_justified(dataflow_edges(net, f, cfg, from).unwrap(), f, cfg, flag),
    decreases f.values.len() - from,
{
    if from < f.values.len() {
        lemma_uses_edges_justified(net, f, cfg, flag, from, 0);
        let next = uses_edges(net, f, value_node(Value(from as usize)), uses_of(f, cfg, Value(from as usize)), 0).unwrap();
        lemma_dataflow_edges_justified(next, f, cfg, flag, from + 1);
    }
}

/// A function's flow network holds no edge without a reason: every edge
/// marks a result of a placed load or call as a source, leads from a sink
/// node to the global sink, leads into the sink node of an instruction
/// from one of its sink arguments, or follows a use of a value.
pub proof fn lemma_flow_network_justified(f: FunctionView, cfg: Seq<Seq<BlockPredecessor>>, store_values_are_sinks: bool)
    requires
        f.wf(),
        flow_network(f, cfg, store_values_are_sinks) is Ok,
    ensures
        all_justified(flow_network(f, cfg, store_values_are_sinks).unwrap(), f, cfg, store_values_are_sinks),
{
    let start = Network::for_values(f.values.len());
    lemma_classify_blocks_justified(start, f, cfg, store_values_are_sinks, 0);
    let classified = classify_blocks(start, f, store_values_are_sinks, 0).unwrap();
    lemma_dataflow_edges_justified(classified, f, cfg, store_values_are_sinks, 0);
}

} // verus!
