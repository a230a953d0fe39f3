//! What the flow network of a function looks like: which nodes it has and
//! which edges mark its sources.

use crate::construct::{
    arg_edges, classify_blocks, classify_inst, classify_insts, dataflow_edges, flow_network,
    result_edges, sink_edges, source_edges, use_edges, uses_edges,
};
use crate::defuse::{uses_of, ValueUse};
use crate::fence::bladenode_fits;
use crate::ir::{BlockPredecessor, FunctionView, Inst, Opcode, Value};
use crate::network::{BladeNode, Network, SINK_NODE, SOURCE_NODE, value_node};
use vstd::prelude::*;

verus! {

/// The network `b` has the nodes of `a`, and the edges of `a` under their
/// numbers.
pub open spec fn extends(a: Network, b: Network) -> bool {
    &&& a.values == b.values
    &&& a.labels.len() <= b.labels.len()
    &&& forall|n: int| 0 <= n < a.labels.len() ==> #[trigger] b.labels[n] == a.labels[n]
    &&& a.edges.len() <= b.edges.len()
    &&& forall|k: int| 0 <= k < a.edges.len() ==> #[trigger] b.edges[k] == a.edges[k]
}

/// An edge of a network is an edge of every network that extends it.
proof fn lemma_extends_keeps_edge(a: Network, b: Network, tail: usize, head: usize)
    requires
        extends(a, b),
        a.has_edge(tail, head),
    ensures
        b.has_edge(tail, head),
{
    let k = choose|k: int| 0 <= k < a.edges.len() && a.edges[k] == (tail, head);
    assert(b.edges[k] == (tail, head));
}

/// Adding source edges adds no node, keeps what is there, and makes each
/// of the values a source.
proof fn lemma_source_edges(net: Network, results: Seq<Value>, from: int)
    requires
        0 <= from,
        source_edges(net, results, from) is Ok,
    ensures
        extends(net, source_edges(net, results, from).unwrap()),
        source_edges(net, results, from).unwrap().labels == net.labels,
        forall|k: int|
            from <= k < results.len() ==> source_edges(net, results, from).unwrap().is_source_node(
                #[trigger] value_node(results[k]),
            ),
    decreases results.len() - from,
{
    if from < results.len() {
        let node = value_node(results[from]);
        let next = net.with_edge(SOURCE_NODE, node);
        lemma_source_edges(next, results, from + 1);
        let last = source_edges(net, results, from).unwrap();
        assert(next.edges[net.edges.len() as int] == (SOURCE_NODE, node));
        assert(next.has_edge(SOURCE_NODE, node));
        lemma_extends_keeps_edge(next, last, SOURCE_NODE, node);
        assert forall|k: int| 0 <= k < net.edges.len() implies #[trigger] last.edges[k] == net.edges[k] by {
            assert(next.edges[k] == net.edges[k]);
        }
    }
}

/// Adding edges into a node adds no node and keeps what is there.
proof fn lemma_arg_edges(net: Network, args: Seq<Value>, node: usize, from: int, to: int)
    requires
        0 <= from,
        arg_edges(net, args, node, from, to) is Ok,
    ensures
        extends(net, arg_edges(net, args, node, from, to).unwrap()),
        arg_edges(net, args, node, from, to).unwrap().labels == net.labels,
        forall|k: int|
            from <= k < to ==> arg_edges(net, args, node, from, to).unwrap().has_edge(
                #[trigger] value_node(args[k]),
                node,
            ),
    decreases to - from,
{
    if from < to {
        let tail = value_node(args[from]);
        let next = net.with_edge(tail, node);
        lemma_arg_edges(next, args, node, from + 1, to);
        let last = arg_edges(net, args, node, from, to).unwrap();
        assert(next.edges[net.edges.len() as int] == (tail, node));
        assert(next.has_edge(tail, node));
        lemma_extends_keeps_edge(next, last, tail, node);
        assert forall|k: int| 0 <= k < net.edges.len() implies #[trigger] last.edges[k] == net.edges[k] by {
            assert(next.edges[k] == net.edges[k]);
        }
    }
}

/// Adding edges out of a node adds no node and keeps what is there.
proof fn lemma_result_edges(net: Network, node: usize, results: Seq<Value>, from: int)
    requires
        0 <= from,
        result_edges(net, node, results, from) is Ok,
    ensures
        extends(net, result_edges(net, node, results, from).unwrap()),
        result_edges(net, node, results, from).unwrap().labels == net.labels,
        forall|k: int|
            from <= k < results.len() ==> result_edges(net, node, results, from).unwrap().has_edge(
                node,
                #[trigger] value_node(results[k]),
            ),
    decreases results.len() - from,
{
    if from < results.len() {
        let head = value_node(results[from]);
        let next = net.with_edge(node, head);
        lemma_result_edges(next, node, results, from + 1);
        let last = result_edges(net, node, results, from).unwrap();
        assert(next.edges[net.edges.len() as int] == (node, head));
        assert(next.has_edge(node, head));
        lemma_extends_keeps_edge(next, last, node, head);
        assert forall|k: int| 0 <= k < net.edges.len() implies #[trigger] last.edges[k] == net.edges[k] by {
            assert(next.edges[k] == net.edges[k]);
        }
    }
}

/// Adding a sink with its edges adds the one sink node, last, and keeps
/// what is there.
proof fn lemma_sink_edges(net: Network, inst: Inst, args: Seq<Value>, from: int, to: int)
    requires
        0 <= from,
        sink_edges(net, inst, args, from, to) is Ok,
    ensures
        extends(net, sink_edges(net, inst, args, from, to).unwrap()),
        sink_edges(net, inst, args, from, to).unwrap().labels == net.labels.push(Some(BladeNode::Sink(inst))),
        sink_edges(net, inst, args, from, to).unwrap().has_edge(net.labels.len() as usize, SINK_NODE),
        forall|k: int|
            from <= k < to ==> sink_edges(net, inst, args, from, to).unwrap().has_edge(
                #[trigger] value_node(args[k]),
                net.labels.len() as usize,
            ),
{
    let node = net.labels.len() as usize;
    let next = net.with_sink_node(inst).with_edge(node, SINK_NODE);
    lemma_arg_edges(next, args, node, from, to);
    let last = sink_edges(net, inst, args, from, to).unwrap();
    assert(next.edges[net.edges.len() as int] == (node, SINK_NODE));
    assert(next.has_edge(node, SINK_NODE));
    lemma_extends_keeps_edge(next, last, node, SINK_NODE);
    assert forall|k: int| 0 <= k < net.edges.len() implies #[trigger] last.edges[k] == net.edges[k] by {
        assert(next.edges[k] == net.edges[k]);
    }
    assert forall|n: int| 0 <= n < net.labels.len() implies #[trigger] last.labels[n] == net.labels[n] by {
        assert(next.labels[n] == net.labels[n]);
    }
}

/// The instruction gets a sink node: a load that is no stack reload, a
/// store, a branch or a call.
pub open spec fn is_sink_inst(op: Opcode) -> bool {
    (op.spec_can_load() && !op.spec_is_fill()) || op.spec_can_store() || op.spec_is_branch()
        || op.spec_is_call()
}

/// The results of the instruction are sources: a load or a call.
pub open spec fn is_source_inst(op: Opcode) -> bool {
    op.spec_can_load() || op.spec_is_call()
}

/// Every result of `inst` is a source node of the network.
pub open spec fn results_are_sources(net: Network, f: FunctionView, inst: Inst) -> bool {
    forall|j: int|
        0 <= j < f.insts[inst.0 as int].results.len() ==> net.is_source_node(
            #[trigger] value_node(f.insts[inst.0 as int].results[j]),
        )
}

/// The sink node label that `inst` gives rise to, if any.
pub open spec fn sink_label(f: FunctionView, inst: Inst) -> Seq<Option<BladeNode>> {
    if is_sink_inst(f.insts[inst.0 as int].opcode) {
        seq![Some(BladeNode::Sink(inst))]
    } else {
        Seq::empty()
    }
}

/// The sink node labels of the instructions `insts` from position `from`
/// on.
pub open spec fn sink_labels(f: FunctionView, insts: Seq<Inst>, from: int) -> Seq<Option<BladeNode>>
    decreases insts.len() - from,
{
    if from < 0 || from >= insts.len() {
        Seq::empty()
    } else {
        sink_label(f, insts[from]) + sink_labels(f, insts, from + 1)
    }
}

/// The sink node labels of the blocks from number `from` on.
pub open spec fn layout_sink_labels(f: FunctionView, from: int) -> Seq<Option<BladeNode>>
    decreases f.blocks.len() - from,
{
    if from < 0 || from >= f.blocks.len() {
        Seq::empty()
    } else {
        sink_labels(f, f.blocks[from].insts, 0) + layout_sink_labels(f, from + 1)
    }
}

/// The arguments of `inst` that flow into its sink: all arguments of a
/// load or a call; those of a store, but for the stored value, which comes
/// first, unless `store_values_are_sinks`; the fixed arguments of a branch.
pub open spec fn sink_args(f: FunctionView, inst: Inst, store_values_are_sinks: bool) -> Seq<Value> {
    let data = f.insts[inst.0 as int];
    let op = data.opcode;
    if op.spec_can_load() {
        data.args
    } else if op.spec_can_store() {
        if store_values_are_sinks || data.args.len() == 0 {
            data.args
        } else {
            data.args.skip(1)
        }
    } else if op.spec_is_branch() {
        data.args.take(data.fixed as int)
    } else {
        data.args
    }
}

/// The sink of `inst` is wired at node `n`: the node is labelled as the
/// sink of `inst`, an edge leads from it to the global sink, and an edge
/// leads into it from the node of every sink argument of `inst`.
pub open spec fn sink_wired_at(net: Network, f: FunctionView, inst: Inst, store_values_are_sinks: bool, n: usize) -> bool {
    &&& net.has_node(n)
    &&& net.labels[n as int] == Some(BladeNode::Sink(inst))
    &&& net.has_edge(n, SINK_NODE)
    &&& forall|k: int|
        0 <= k < sink_args(f, inst, store_values_are_sinks).len() ==> net.has_edge(
            #[trigger] value_node(sink_args(f, inst, store_values_are_sinks)[k]),
            n,
        )
}

/// The sink of `inst` is wired at some node.
pub open spec fn sink_wired(net: Network, f: FunctionView, inst: Inst, store_values_are_sinks: bool) -> bool {
    exists|n: usize| sink_wired_at(net, f, inst, store_values_are_sinks, n)
}

/// The use `u` of the value at `node` is wired: an edge leads from `node`
/// to every result of a using instruction, or to the block parameter that
/// the value is forwarded to.
pub open spec fn use_wired(net: Network, f: FunctionView, node: usize, u: ValueUse) -> bool {
    match u {
        ValueUse::Inst(inst) => forall|j: int|
            0 <= j < f.insts[inst.0 as int].results.len() ==> net.has_edge(
                node,
                #[trigger] value_node(f.insts[inst.0 as int].results[j]),
            ),
        ValueUse::Value(v) => net.has_edge(node, value_node(v)),
    }
}

proof fn lemma_extends_keeps_sink_wired(a: Network, b: Network, f: FunctionView, inst: Inst, flag: bool)
    requires
        extends(a, b),
        sink_wired(a, f, inst, flag),
    ensures
        sink_wired(b, f, inst, flag),
{
    let n = choose|n: usize| sink_wired_at(a, f, inst, flag, n);
    assert(b.labels[n as int] == a.labels[n as int]);
    lemma_extends_keeps_edge(a, b, n, SINK_NODE);
    assert forall|k: int| 0 <= k < sink_args(f, inst, flag).len() implies b.has_edge(
        #[trigger] value_node(sink_args(f, inst, flag)[k]),
        n,
    ) by {
        lemma_extends_keeps_edge(a, b, value_node(sink_args(f, inst, flag)[k]), n);
    }
    assert(sink_wired_at(b, f, inst, flag, n));
}

proof fn lemma_extends_keeps_use_wired(a: Network, b: Network, f: FunctionView, node: usize, u: ValueUse)
    requires
        extends(a, b),
        use_wired(a, f, node, u),
    ensures
        use_wired(b, f, node, u),
{
    match u {
        ValueUse::Inst(inst) => {
            assert forall|j: int| 0 <= j < f.insts[inst.0 as int].results.len() implies b.has_edge(
                node,
                #[trigger] value_node(f.insts[inst.0 as int].results[j]),
            ) by {
                lemma_extends_keeps_edge(a, b, node, value_node(f.insts[inst.0 as int].results[j]));
            }
        },
        ValueUse::Value(v) => {
            lemma_extends_keeps_edge(a, b, node, value_node(v));
        },
    }
}

/// Sources stay sources in a network that extends another.
proof fn lemma_extends_keeps_sources(a: Network, b: Network, f: FunctionView, inst: Inst)
    requires
        extends(a, b),
        results_are_sources(a, f, inst),
    ensures
        results_are_sources(b, f, inst),
{
    assert forall|j: int| 0 <= j < f.insts[inst.0 as int].results.len() implies b.is_source_node(
        #[trigger] value_node(f.insts[inst.0 as int].results[j]),
    ) by {
        lemma_extends_keeps_edge(a, b, SOURCE_NODE, value_node(f.insts[inst.0 as int].results[j]));
    }
}

/// Extending is transitive.
proof fn lemma_extends_trans(a: Network, b: Network, c: Network)
    requires
        extends(a, b),
        extends(b, c),
    ensures
        extends(a, c),
{
    assert forall|n: int| 0 <= n < a.labels.len() implies #[trigger] c.labels[n] == a.labels[n] by {
        assert(b.labels[n] == a.labels[n]);
    }
    assert forall|k: int| 0 <= k < a.edges.len() implies #[trigger] c.edges[k] == a.edges[k] by {
        assert(b.edges[k] == a.edges[k]);
    }
}

/// Classifying an instruction keeps what is there, adds its sink node if
/// it has one, and makes its results sources if it is a load or a call.
proof fn lemma_classify_inst(net: Network, f: FunctionView, inst: Inst, store_values_are_sinks: bool)
    requires
        classify_inst(net, f, inst, store_values_are_sinks) is Ok,
        f.insts[inst.0 as int].fixed <= f.insts[inst.0 as int].args.len(),
    ensures
        extends(net, classify_inst(net, f, inst, store_values_are_sinks).unwrap()),
        classify_inst(net, f, inst, store_values_are_sinks).unwrap().labels == net.labels + sink_label(f, inst),
        is_source_inst(f.insts[inst.0 as int].opcode) ==> results_are_sources(
            classify_inst(net, f, inst, store_values_are_sinks).unwrap(),
            f,
            inst,
        ),
        is_sink_inst(f.insts[inst.0 as int].opcode) ==> sink_wired(
            classify_inst(net, f, inst, store_values_are_sinks).unwrap(),
            f,
            inst,
            store_values_are_sinks,
        ),
{
    let data = f.insts[inst.0 as int];
    let op = data.opcode;
    let last = classify_inst(net, f, inst, store_values_are_sinks).unwrap();
    let len = data.args.len() as int;
    let n = net.labels.len() as usize;
    let wanted = sink_args(f, inst, store_values_are_sinks);
    if op.spec_can_load() {
        let sourced = source_edges(net, data.results, 0).unwrap();
        lemma_source_edges(net, data.results, 0);
        if op.spec_is_fill() {
            assert(last == sourced);
            assert(last.labels =~= net.labels + sink_label(f, inst));
        } else {
            lemma_sink_edges(sourced, inst, data.args, 0, len);
            lemma_extends_trans(net, sourced, last);
            lemma_extends_keeps_sources(sourced, last, f, inst);
            assert(last.labels =~= net.labels + sink_label(f, inst));
            assert forall|k: int| 0 <= k < wanted.len() implies last.has_edge(
                #[trigger] value_node(wanted[k]),
                n,
            ) by {
                assert(last.has_edge(value_node(data.args[k]), n));
            }
            assert(sink_wired_at(last, f, inst, store_values_are_sinks, n));
        }
    } else if op.spec_can_store() {
        let from: int = if store_values_are_sinks { 0 } else { 1 };
        lemma_sink_edges(net, inst, data.args, from, len);
        assert(last.labels =~= net.labels + sink_label(f, inst));
        assert forall|k: int| 0 <= k < wanted.len() implies last.has_edge(
            #[trigger] value_node(wanted[k]),
            n,
        ) by {
            if store_values_are_sinks || len == 0 {
                assert(last.has_edge(value_node(data.args[k]), n));
            } else {
                assert(wanted[k] == data.args[k + 1]);
                assert(last.has_edge(value_node(data.args[k + 1]), n));
            }
        }
        assert(sink_wired_at(last, f, inst, store_values_are_sinks, n));
    } else if op.spec_is_branch() {
        lemma_sink_edges(net, inst, data.args, 0, data.fixed as int);
        assert(last.labels =~= net.labels + sink_label(f, inst));
        assert forall|k: int| 0 <= k < wanted.len() implies last.has_edge(
            #[trigger] value_node(wanted[k]),
            n,
        ) by {
            assert(last.has_edge(value_node(data.args[k]), n));
        }
        assert(sink_wired_at(last, f, inst, store_values_are_sinks, n));
    } else if op.spec_is_call() {
        let sourced = source_edges(net, data.results, 0).unwrap();
        lemma_source_edges(net, data.results, 0);
        lemma_sink_edges(sourced, inst, data.args, 0, len);
        lemma_extends_trans(net, sourced, last);
        lemma_extends_keeps_sources(sourced, last, f, inst);
        assert(last.labels =~= net.labels + sink_label(f, inst));
        assert forall|k: int| 0 <= k < wanted.len() implies last.has_edge(
            #[trigger] value_node(wanted[k]),
            n,
        ) by {
            assert(last.has_edge(value_node(data.args[k]), n));
        }
        assert(sink_wired_at(last, f, inst, store_values_are_sinks, n));
    } else {
        assert(last == net);
        assert(last.labels =~= net.labels + sink_label(f, inst));
    }
}

/// Classifying a list of instructions keeps what is there, adds their
/// sink nodes in order, and makes the results of loads and calls sources.
proof fn lemma_classify_insts(
    net: Network,
    f: FunctionView,
    insts: Seq<Inst>,
    store_values_are_sinks: bool,
    from: int,
)
    requires
        0 <= from,
        classify_insts(net, f, insts, store_values_are_sinks, from) is Ok,
        f.wf(),
        forall|k: int| 0 <= k < insts.len() ==> f.has_inst(#[trigger] insts[k]),
    ensures
        extends(net, classify_insts(net, f, insts, store_values_are_sinks, from).unwrap()),
        classify_insts(net, f, insts, store_values_are_sinks, from).unwrap().labels == net.labels
            + sink_labels(f, insts, from),
        forall|k: int|
            from <= k < insts.len() && is_source_inst(f.insts[(#[trigger] insts[k]).0 as int].opcode)
                ==> results_are_sources(
                classify_insts(net, f, insts, store_values_are_sinks, from).unwrap(),
                f,
                insts[k],
            ),
        forall|k: int|
            from <= k < insts.len() && is_sink_inst(f.insts[(#[trigger] insts[k]).0 as int].opcode)
                ==> sink_wired(
                classify_insts(net, f, insts, store_values_are_sinks, from).unwrap(),
                f,
                insts[k],
                store_values_are_sinks,
            ),
    decreases insts.len() - from,
{
    let last = classify_insts(net, f, insts, store_values_are_sinks, from).unwrap();
    if from < insts.len() {
        let next = classify_inst(net, f, insts[from], store_values_are_sinks).unwrap();
        assert(f.has_inst(insts[from]));
        assert(f.insts[insts[from].0 as int].fixed <= f.insts[insts[from].0 as int].args.len());
        lemma_classify_inst(net, f, insts[from], store_values_are_sinks);
        lemma_classify_insts(next, f, insts, store_values_are_sinks, from + 1);
        lemma_extends_trans(net, next, last);
        assert(last.labels =~= net.labels + sink_labels(f, insts, from));
        if is_source_inst(f.insts[insts[from].0 as int].opcode) {
            lemma_extends_keeps_sources(next, last, f, insts[from]);
        }
        if is_sink_inst(f.insts[insts[from].0 as int].opcode) {
            lemma_extends_keeps_sink_wired(next, last, f, insts[from], store_values_are_sinks);
        }
    } else {
        assert(last.labels =~= net.labels + sink_labels(f, insts, from));
    }
}

/// Classifying the blocks keeps what is there, adds the sink nodes of the
/// layout in order, and makes the results of loads and calls sources.
proof fn lemma_classify_blocks(net: Network, f: FunctionView, store_values_are_sinks: bool, from: int)
    requires
        0 <= from,
        classify_blocks(net, f, store_values_are_sinks, from) is Ok,
        f.wf(),
    ensures
        extends(net, classify_blocks(net, f, store_values_are_sinks, from).unwrap()),
        classify_blocks(net, f, store_values_are_sinks, from).unwrap().labels == net.labels
            + layout_sink_labels(f, from),
        forall|b: int, p: int|
            from <= b < f.blocks.len() && 0 <= p < f.blocks[b].insts.len() && is_source_inst(
                f.insts[(#[trigger] f.blocks[b].insts[p]).0 as int].opcode,
            ) ==> results_are_sources(
                classify_blocks(net, f, store_values_are_sinks, from).unwrap(),
                f,
                f.blocks[b].insts[p],
            ),
        forall|b: int, p: int|
            from <= b < f.blocks.len() && 0 <= p < f.blocks[b].insts.len() && is_sink_inst(
                f.insts[(#[trigger] f.blocks[b].insts[p]).0 as int].opcode,
            ) ==> sink_wired(
                classify_blocks(net, f, store_values_are_sinks, from).unwrap(),
                f,
                f.blocks[b].insts[p],
                store_values_are_sinks,
            ),
    decreases f.blocks.len() - from,
{
    let last = classify_blocks(net, f, store_values_are_sinks, from).unwrap();
    if from < f.blocks.len() {
        let insts = f.blocks[from].insts;
        let next = classify_insts(net, f, insts, store_values_are_sinks, 0).unwrap();
        assert forall|k: int| 0 <= k < insts.len() implies f.has_inst(#[trigger] insts[k]) by {
            assert(f.has_inst(f.blocks[from].insts[k]));
        }
        lemma_classify_insts(net, f, insts, store_values_are_sinks, 0);
        lemma_classify_blocks(next, f, store_values_are_sinks, from + 1);
        lemma_extends_trans(net, next, last);
        assert(last.labels =~= net.labels + layout_sink_labels(f, from));
        assert forall|b: int, p: int|
            from <= b < f.blocks.len() && 0 <= p < f.blocks[b].insts.len() && is_source_inst(
                f.insts[(#[trigger] f.blocks[b].insts[p]).0 as int].opcode,
            ) implies results_are_sources(last, f, f.blocks[b].insts[p]) by {
            if b == from {
                assert(results_are_sources(next, f, insts[p]));
                lemma_extends_keeps_sources(next, last, f, insts[p]);
            }
        }
        assert forall|b: int, p: int|
            from <= b < f.blocks.len() && 0 <= p < f.blocks[b].insts.len() && is_sink_inst(
                f.insts[(#[trigger] f.blocks[b].insts[p]).0 as int].opcode,
            ) implies sink_wired(last, f, f.blocks[b].insts[p], store_values_are_sinks) by {
            if b == from {
                assert(sink_wired(next, f, insts[p], store_values_are_sinks));
                lemma_extends_keeps_sink_wired(next, last, f, insts[p], store_values_are_sinks);
            }
        }
    } else {
        assert(last.labels =~= net.labels + layout_sink_labels(f, from));
    }
}

/// Adding the edges of a list of uses adds no node, keeps what is there,
/// and wires each of the uses.
proof fn lemma_uses_edges(net: Network, f: FunctionView, node: usize, uses: Seq<ValueUse>, from: int)
    requires
        0 <= from,
        uses_edges(net, f, node, uses, from) is Ok,
    ensures
        extends(net, uses_edges(net, f, node, uses, from).unwrap()),
        uses_edges(net, f, node, uses, from).unwrap().labels == net.labels,
        forall|k: int|
            from <= k < uses.len() ==> use_wired(
                uses_edges(net, f, node, uses, from).unwrap(),
                f,
                node,
                #[trigger] uses[k],
            ),
    decreases uses.len() - from,
{
    let last = uses_edges(net, f, node, uses, from).unwrap();
    if from < uses.len() {
        let next = use_edges(net, f, node, uses[from]).unwrap();
        match uses[from] {
            ValueUse::Inst(inst) => {
                lemma_result_edges(net, node, f.insts[inst.0 as int].results, 0);
            },
            ValueUse::Value(v) => {
                assert(next == net.with_edge(node, value_node(v)));
                assert(next.edges[net.edges.len() as int] == (node, value_node(v)));
                assert(next.has_edge(node, value_node(v)));
            },
        }
        assert(use_wired(next, f, node, uses[from]));
        lemma_uses_edges(next, f, node, uses, from + 1);
        lemma_extends_trans(net, next, last);
        lemma_extends_keeps_use_wired(next, last, f, node, uses[from]);
    }
}

/// Adding the data-flow edges adds no node, keeps what is there, and wires
/// every use of every value.
proof fn lemma_dataflow_edges(net: Network, f: FunctionView, cfg: Seq<Seq<BlockPredecessor>>, from: int)
    requires
        0 <= from,
        dataflow_edges(net, f, cfg, from) is Ok,
    ensures
        extends(net, dataflow_edges(net, f, cfg, from).unwrap()),
        dataflow_edges(net, f, cfg, from).unwrap().labels == net.labels,
        forall|v: int, k: int|
            from <= v < f.values.len() && 0 <= k < uses_of(f, cfg, Value(v as usize)).len()
                ==> use_wired(
                dataflow_edges(net, f, cfg, from).unwrap(),
                f,
                value_node(Value(v as usize)),
                #[trigger] uses_of(f, cfg, Value(v as usize))[k],
            ),
    decreases f.values.len() - from,
{
    let last = dataflow_edges(net, f, cfg, from).unwrap();
    if from < f.values.len() {
        let uses = uses_of(f, cfg, Value(from as usize));
        let node = value_node(Value(from as usize));
        let next = uses_edges(net, f, node, uses, 0).unwrap();
        lemma_uses_edges(net, f, node, uses, 0);
        lemma_dataflow_edges(next, f, cfg, from + 1);
        lemma_extends_trans(net, next, last);
        assert forall|v: int, k: int|
            from <= v < f.values.len() && 0 <= k < uses_of(f, cfg, Value(v as usize)).len()
            implies use_wired(
            last,
            f,
            value_node(Value(v as usize)),
            #[trigger] uses_of(f, cfg, Value(v as usize))[k],
        ) by {
            if v == from {
                assert(use_wired(next, f, node, uses[k]));
                lemma_extends_keeps_use_wired(next, last, f, node, uses[k]);
            }
        }
    }
}

/// The nodes and sources of a function's flow network: after the two
/// terminals and the value nodes come the sink nodes of the layout, in
/// order; and every result of a placed load or call is a source.
pub proof fn lemma_flow_network_shape(f: FunctionView, cfg: Seq<Seq<BlockPredecessor>>, store_values_are_sinks: bool)
    requires
        f.wf(),
        flow_network(f, cfg, store_values_are_sinks) is Ok,
    ensures
        flow_network(f, cfg, store_values_are_sinks).unwrap().values == f.values.len(),
        flow_network(f, cfg, store_values_are_sinks).unwrap().labels == Network::for_values(
            f.values.len(),
        ).labels + layout_sink_labels(f, 0),
        forall|b: int, p: int|
            0 <= b < f.blocks.len() && 0 <= p < f.blocks[b].insts.len() && is_source_inst(
                f.insts[(#[trigger] f.blocks[b].insts[p]).0 as int].opcode,
            ) ==> results_are_sources(
                flow_network(f, cfg, store_values_are_sinks).unwrap(),
                f,
                f.blocks[b].insts[p],
            ),
{
    let start = Network::for_values(f.values.len());
    let classified = classify_blocks(start, f, store_values_are_sinks, 0).unwrap();
    let last = flow_network(f, cfg, store_values_are_sinks).unwrap();
    lemma_classify_blocks(start, f, store_values_are_sinks, 0);
    lemma_dataflow_edges(classified, f, cfg, 0);
    assert forall|b: int, p: int|
        0 <= b < f.blocks.len() && 0 <= p < f.blocks[b].insts.len() && is_source_inst(
            f.insts[(#[trigger] f.blocks[b].insts[p]).0 as int].opcode,
        ) implies results_are_sources(last, f, f.blocks[b].insts[p]) by {
        lemma_extends_keeps_sources(classified, last, f, f.blocks[b].insts[p]);
    }
}

/// Every dependency has its edge in a function's flow network: the sink
/// of every placed sink instruction is wired, and so is every use of every
/// value.
pub proof fn lemma_flow_network_wired(f: FunctionView, cfg: Seq<Seq<BlockPredecessor>>, store_values_are_sinks: bool)
    requires
        f.wf(),
        flow_network(f, cfg, store_values_are_sinks) is Ok,
    ensures
        forall|b: int, p: int|
            0 <= b < f.blocks.len() && 0 <= p < f.blocks[b].insts.len() && is_sink_inst(
                f.insts[(#[trigger] f.blocks[b].insts[p]).0 as int].opcode,
            ) ==> sink_wired(
                flow_network(f, cfg, store_values_are_sinks).unwrap(),
                f,
                f.blocks[b].insts[p],
                store_values_are_sinks,
            ),
        forall|v: int, k: int|
            0 <= v < f.values.len() && 0 <= k < uses_of(f, cfg, Value(v as usize)).len()
                ==> use_wired(
                flow_network(f, cfg, store_values_are_sinks).unwrap(),
                f,
                value_node(Value(v as usize)),
                #[trigger] uses_of(f, cfg, Value(v as usize))[k],
            ),
{
    let start = Network::for_values(f.values.len());
    let classified = classify_blocks(start, f, store_values_are_sinks, 0).unwrap();
    let last = flow_network(f, cfg, store_values_are_sinks).unwrap();
    lemma_classify_blocks(start, f, store_values_are_sinks, 0);
    lemma_dataflow_edges(classified, f, cfg, 0);
    assert forall|b: int, p: int|
        0 <= b < f.blocks.len() && 0 <= p < f.blocks[b].insts.len() && is_sink_inst(
            f.insts[(#[trigger] f.blocks[b].insts[p]).0 as int].opcode,
        ) implies sink_wired(last, f, f.blocks[b].insts[p], store_values_are_sinks) by {
        lemma_extends_keeps_sink_wired(classified, last, f, f.blocks[b].insts[p], store_values_are_sinks);
    }
}

/// Every label names a value or an instruction of the function.
pub open spec fn labels_fit(f: FunctionView, labels: Seq<Option<BladeNode>>) -> bool {
    forall|n: int|
        0 <= n < labels.len() ==> match #[trigger] labels[n] {
            Some(bnode) => bladenode_fits(f, bnode),
            None => true,
        }
}

proof fn lemma_sink_labels_fit(f: FunctionView, insts: Seq<Inst>, from: int)
    requires
        0 <= from,
        forall|k: int| 0 <= k < insts.len() ==> f.has_inst(#[trigger] insts[k]),
    ensures
        labels_fit(f, sink_labels(f, insts, from)),
    decreases insts.len() - from,
{
    if from < insts.len() {
        lemma_sink_labels_fit(f, insts, from + 1);
        assert(f.has_inst(insts[from]));
    }
}

proof fn lemma_layout_sink_labels_fit(f: FunctionView, from: int)
    requires
        f.wf(),
        0 <= from,
    ensures
        labels_fit(f, layout_sink_labels(f, from)),
    decreases f.blocks.len() - from,
{
    if from < f.blocks.len() {
        lemma_layout_sink_labels_fit(f, from + 1);
        let insts = f.blocks[from].insts;
        assert forall|k: int| 0 <= k < insts.len() implies f.has_inst(#[trigger] insts[k]) by {
            assert(f.has_inst(f.blocks[from].insts[k]));
        }
        lemma_sink_labels_fit(f, insts, 0);
    }
}

/// Every node of a function's flow network stands for a value or an
/// instruction of that function.
pub proof fn lemma_flow_network_fits(f: FunctionView, cfg: Seq<Seq<BlockPredecessor>>, store_values_are_sinks: bool)
    requires
        f.wf(),
        flow_network(f, cfg, store_values_are_sinks) is Ok,
    ensures
        labels_fit(f, flow_network(f, cfg, store_values_are_sinks).unwrap().labels),
        flow_network(f, cfg, store_values_are_sinks).unwrap().values == f.values.len(),
{
    lemma_flow_network_shape(f, cfg, store_values_are_sinks);
    lemma_layout_sink_labels_fit(f, 0);
}

/// How many nodes carry the label `bnode`.
pub open spec fn count_label(labels: Seq<Option<BladeNode>>, bnode: BladeNode) -> nat
    decreases labels.len(),
{
    if labels.len() == 0 {
        0
    } else {
        count_label(labels.drop_last(), bnode) + if labels.last() == Some(bnode) {
            1nat
        } else {
            0nat
        }
    }
}

proof fn lemma_count_join(a: Seq<Option<BladeNode>>, b: Seq<Option<BladeNode>>, bnode: BladeNode)
    ensures
        count_label(a + b, bnode) == count_label(a, bnode) + count_label(b, bnode),
    decreases b.len(),
{
    if b.len() == 0 {
        assert(a + b =~= a);
    } else {
        lemma_count_join(a, b.drop_last(), bnode);
        assert((a + b).drop_last() =~= a + b.drop_last());
        assert((a + b).last() == b.last());
    }
}

proof fn lemma_count_absent(labels: Seq<Option<BladeNode>>, bnode: BladeNode)
    requires
        forall|n: int| 0 <= n < labels.len() ==> #[trigger] labels[n] != Some(bnode),
    ensures
        count_label(labels, bnode) == 0,
    decreases labels.len(),
{
    if labels.len() > 0 {
        assert forall|n: int| 0 <= n < labels.drop_last().len() implies #[trigger] labels.drop_last()[n]
            != Some(bnode) by {
            assert(labels.drop_last()[n] == labels[n]);
        }
        lemma_count_absent(labels.drop_last(), bnode);
        assert(labels.last() == labels[labels.len() - 1]);
    }
}

/// Whether `inst` stands in `insts` at position `from` or later.
pub open spec fn listed_from(insts: Seq<Inst>, inst: Inst, from: int) -> bool {
    exists|p: int| from <= p < insts.len() && insts[p] == inst
}

proof fn lemma_count_sink_labels(f: FunctionView, insts: Seq<Inst>, inst: Inst, from: int)
    requires
        0 <= from,
        insts.no_duplicates(),
    ensures
        count_label(sink_labels(f, insts, from), BladeNode::Sink(inst)) == if listed_from(insts, inst, from)
            && is_sink_inst(f.insts[inst.0 as int].opcode) {
            1nat
        } else {
            0nat
        },
    decreases insts.len() - from,
{
    let wanted = BladeNode::Sink(inst);
    if from < insts.len() {
        lemma_count_sink_labels(f, insts, inst, from + 1);
        lemma_count_join(sink_label(f, insts[from]), sink_labels(f, insts, from + 1), wanted);
        let own = sink_label(f, insts[from]);
        if is_sink_inst(f.insts[insts[from].0 as int].opcode) {
            assert(own.len() == 1);
            assert(own.drop_last().len() == 0);
            assert(count_label(own.drop_last(), wanted) == 0);
            assert(own.last() == Some(BladeNode::Sink(insts[from])));
            assert(count_label(own, wanted) == if insts[from] == inst { 1nat } else { 0nat });
        } else {
            assert(own.len() == 0);
            assert(count_label(own, wanted) == 0);
        }
        if insts[from] == inst {
            if listed_from(insts, inst, from + 1) {
                let p = choose|p: int| from + 1 <= p < insts.len() && insts[p] == inst;
                assert(insts[p] == insts[from]);
            }
            assert(listed_from(insts, inst, from));
        } else {
            if listed_from(insts, inst, from) {
                let p = choose|p: int| from <= p < insts.len() && insts[p] == inst;
                assert(from + 1 <= p);
                assert(listed_from(insts, inst, from + 1));
            }
            if listed_from(insts, inst, from + 1) {
                let p = choose|p: int| from + 1 <= p < insts.len() && insts[p] == inst;
                assert(listed_from(insts, inst, from));
            }
        }
    } else {
        assert(!listed_from(insts, inst, from));
    }
}

proof fn lemma_count_layout_sink_labels(f: FunctionView, inst: Inst, from: int)
    requires
        f.wf(),
        f.has_inst(inst),
        0 <= from,
    ensures
        count_label(layout_sink_labels(f, from), BladeNode::Sink(inst)) == if f.insts[inst.0 as int].block
            is Some && f.insts[inst.0 as int].block.unwrap().0 >= from && is_sink_inst(
            f.insts[inst.0 as int].opcode,
        ) {
            1nat
        } else {
            0nat
        },
    decreases f.blocks.len() - from,
{
    let wanted = BladeNode::Sink(inst);
    if from < f.blocks.len() {
        let insts = f.blocks[from].insts;
        lemma_count_layout_sink_labels(f, inst, from + 1);
        lemma_count_join(sink_labels(f, insts, 0), layout_sink_labels(f, from + 1), wanted);
        assert(f.blocks[from].insts.no_duplicates());
        lemma_count_sink_labels(f, insts, inst, 0);
        if listed_from(insts, inst, 0) {
            let p = choose|p: int| 0 <= p < insts.len() && insts[p] == inst;
            assert(f.insts[f.blocks[from].insts[p].0 as int].block == Some(crate::ir::Block(from as usize)));
        }
        if f.insts[inst.0 as int].block == Some(crate::ir::Block(from as usize)) {
            assert(f.blocks[from].insts.contains(Inst(inst.0 as int as usize)));
            assert(listed_from(insts, inst, 0));
        }
    } else {
        match f.insts[inst.0 as int].block {
            Some(b) => {
                assert(f.has_block(b));
            },
            None => {},
        }
    }
}

/// Every placed load that is no stack reload, and every placed store,
/// branch and call, has exactly one sink node, and no other instruction has
/// any; every result of a placed load or call is a source.
pub proof fn lemma_classification_complete(
    f: FunctionView,
    cfg: Seq<Seq<BlockPredecessor>>,
    store_values_are_sinks: bool,
    inst: Inst,
)
    requires
        f.wf(),
        f.has_inst(inst),
        flow_network(f, cfg, store_values_are_sinks) is Ok,
    ensures
        count_label(flow_network(f, cfg, store_values_are_sinks).unwrap().labels, BladeNode::Sink(inst)) == if f.insts[inst.0 as int].block
            is Some && is_sink_inst(f.insts[inst.0 as int].opcode) {
            1nat
        } else {
            0nat
        },
        f.insts[inst.0 as int].block is Some && is_source_inst(f.insts[inst.0 as int].opcode)
            ==> results_are_sources(flow_network(f, cfg, store_values_are_sinks).unwrap(), f, inst),
{
    let net = flow_network(f, cfg, store_values_are_sinks).unwrap();
    let wanted = BladeNode::Sink(inst);
    lemma_flow_network_shape(f, cfg, store_values_are_sinks);
    let values = Network::for_values(f.values.len()).labels;
    lemma_count_join(values, layout_sink_labels(f, 0), wanted);
    lemma_count_absent(values, wanted);
    lemma_count_layout_sink_labels(f, inst, 0);
    match f.insts[inst.0 as int].block {
        Some(b) => {
            assert(f.blocks[b.0 as int].insts.contains(Inst(inst.0 as int as usize)));
            let p = choose|p: int| 0 <= p < f.blocks[b.0 as int].insts.len() && f.blocks[b.0 as int].insts[p] == inst;
            if is_source_inst(f.insts[inst.0 as int].opcode) {
                assert(is_source_inst(f.insts[f.blocks[b.0 as int].insts[p].0 as int].opcode));
            }
        },
        None => {},
    }
}

} // verus!
