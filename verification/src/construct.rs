//! From a function to its flow network: which values are sources, which
//! instructions are sinks, and how data flows between values.

use crate::defuse::{cfg_error, uses_fit, uses_of, DefUseGraph, ValueUse};
use crate::defuse::lemma_uses_fit;
use crate::error::BladeError;
use crate::graph::{BladeGraph, BladeGraphBuilder};
use crate::ir::{Block, BlockPredecessor, ControlFlowGraph, Function, FunctionView, Inst, Value};
use crate::network::{Network, SINK_NODE, SOURCE_NODE, value_node};
use vstd::prelude::*;

verus! {

/// The network `net` with an edge from the global source to each of the
/// values `results` from position `from` on.
pub open spec fn source_edges(net: Network, results: Seq<Value>, from: int) -> Result<Network, BladeError>
    decreases results.len() - from,
{
    if from < 0 || from >= results.len() {
        Ok(net)
    } else {
        match net.add_edge(SOURCE_NODE, value_node(results[from])) {
            Ok(next) => source_edges(next, results, from + 1),
            Err(e) => Err(e),
        }
    }
}

/// The network `net` with an edge to `node` from each of the values
/// `args[from]` up to, but without, `args[to]`.
pub open spec fn arg_edges(net: Network, args: Seq<Value>, node: usize, from: int, to: int) -> Result<
    Network,
    BladeError,
>
    decreases to - from,
{
    if from < 0 || from >= to {
        Ok(net)
    } else {
        match net.add_edge(value_node(args[from]), node) {
            Ok(next) => arg_edges(next, args, node, from + 1, to),
            Err(e) => Err(e),
        }
    }
}

/// The network `net` with a sink node for `inst` that the values
/// `args[from]` up to, but without, `args[to]` flow into.
pub open spec fn sink_edges(net: Network, inst: Inst, args: Seq<Value>, from: int, to: int) -> Result<
    Network,
    BladeError,
> {
    match net.add_sink(inst) {
        Ok(next) => arg_edges(next, args, net.labels.len() as usize, from, to),
        Err(e) => Err(e),
    }
}

/// What `inst` adds to the network as a load, a store or a branch.
///
/// A load makes its results sources, and its arguments flow into its sink
/// unless it reloads a stack slot. A store has a sink for its arguments;
/// the stored value, which comes first, is left out unless
/// `store_values_are_sinks`. A branch has a sink for its fixed arguments.
pub open spec fn classify_access(net: Network, f: FunctionView, inst: Inst, store_values_are_sinks: bool) -> Result<
    Network,
    BladeError,
> {
    let data = f.insts[inst.0 as int];
    let op = data.opcode;
    if op.spec_can_load() {
        match source_edges(net, data.results, 0) {
            Ok(next) => if op.spec_is_fill() {
                Ok(next)
            } else {
                sink_edges(next, inst, data.args, 0, data.args.len() as int)
            },
            Err(e) => Err(e),
        }
    } else if op.spec_can_store() {
        sink_edges(net, inst, data.args, if store_values_are_sinks { 0 } else { 1 }, data.args.len() as int)
    } else if op.spec_is_branch() {
        sink_edges(net, inst, data.args, 0, data.fixed as int)
    } else {
        Ok(net)
    }
}

/// What `inst` adds to the network as a call: its results are sources, and
/// all its arguments flow into its sink.
pub open spec fn classify_call(net: Network, f: FunctionView, inst: Inst) -> Result<Network, BladeError> {
    let data = f.insts[inst.0 as int];
    if data.opcode.spec_is_call() {
        match source_edges(net, data.results, 0) {
            Ok(next) => sink_edges(next, inst, data.args, 0, data.args.len() as int),
            Err(e) => Err(e),
        }
    } else {
        Ok(net)
    }
}

/// What `inst` adds to the network as a source and as a sink.
pub open spec fn classify_inst(net: Network, f: FunctionView, inst: Inst, store_values_are_sinks: bool) -> Result<
    Network,
    BladeError,
> {
    match classify_access(net, f, inst, store_values_are_sinks) {
        Ok(next) => classify_call(next, f, inst),
        Err(e) => Err(e),
    }
}

/// The network `net` after the instructions `insts` from position `from`
/// on have been classified, in order.
pub open spec fn classify_insts(
    net: Network,
    f: FunctionView,
    insts: Seq<Inst>,
    store_values_are_sinks: bool,
    from: int,
) -> Result<Network, BladeError>
    decreases insts.len() - from,
{
    if from < 0 || from >= insts.len() {
        Ok(net)
    } else {
        match classify_inst(net, f, insts[from], store_values_are_sinks) {
            Ok(next) => classify_insts(next, f, insts, store_values_are_sinks, from + 1),
            Err(e) => Err(e),
        }
    }
}

/// The network `net` after the blocks from number `from` on have been
/// classified, in layout order.
pub open spec fn classify_blocks(net: Network, f: FunctionView, store_values_are_sinks: bool, from: int) -> Result<
    Network,
    BladeError,
>
    decreases f.blocks.len() - from,
{
    if from < 0 || from >= f.blocks.len() {
        Ok(net)
    } else {
        match classify_insts(net, f, f.blocks[from].insts, store_values_are_sinks, 0) {
            Ok(next) => classify_blocks(next, f, store_values_are_sinks, from + 1),
            Err(e) => Err(e),
        }
    }
}

/// The network `net` with an edge from `node` to each of the values
/// `results` from position `from` on.
pub open spec fn result_edges(net: Network, node: usize, results: Seq<Value>, from: int) -> Result<
    Network,
    BladeError,
>
    decreases results.len() - from,
{
    if from < 0 || from >= results.len() {
        Ok(net)
    } else {
        match net.add_edge(node, value_node(results[from])) {
            Ok(next) => result_edges(next, node, results, from + 1),
            Err(e) => Err(e),
        }
    }
}

/// The network `net` with the edges that one use of the value at `node`
/// gives rise to: to every result of a using instruction, or to the block
/// parameter that the value is forwarded to.
pub open spec fn use_edges(net: Network, f: FunctionView, node: usize, u: ValueUse) -> Result<
    Network,
    BladeError,
> {
    match u {
        ValueUse::Inst(inst) => result_edges(net, node, f.insts[inst.0 as int].results, 0),
        ValueUse::Value(v) => net.add_edge(node, value_node(v)),
    }
}

/// The network `net` with the edges of the uses `uses` of the value at
/// `node`, from position `from` on.
pub open spec fn uses_edges(net: Network, f: FunctionView, node: usize, uses: Seq<ValueUse>, from: int) -> Result<
    Network,
    BladeError,
>
    decreases uses.len() - from,
{
    if from < 0 || from >= uses.len() {
        Ok(net)
    } else {
        match use_edges(net, f, node, uses[from]) {
            Ok(next) => uses_edges(next, f, node, uses, from + 1),
            Err(e) => Err(e),
        }
    }
}

/// The network `net` with the data-flow edges of the values from number
/// `from` on.
pub open spec fn dataflow_edges(net: Network, f: FunctionView, cfg: Seq<Seq<BlockPredecessor>>, from: int) -> Result<
    Network,
    BladeError,
>
    decreases f.values.len() - from,
{
    if from < 0 || from >= f.values.len() {
        Ok(net)
    } else {
        match uses_edges(net, f, value_node(Value(from as usize)), uses_of(f, cfg, Value(from as usize)), 0) {
            Ok(next) => dataflow_edges(next, f, cfg, from + 1),
            Err(e) => Err(e),
        }
    }
}

/// The flow network of the function `f` with the control-flow graph `cfg`.
///
/// Its nodes are the two terminals, one node for each value and one for
/// each sink instruction in layout order. Its edges come in two rounds:
/// first those that mark sources and sinks, instruction by instruction,
/// then those along which data flows, value by value.
pub open spec fn flow_network(f: FunctionView, cfg: Seq<Seq<BlockPredecessor>>, store_values_are_sinks: bool) -> Result<
    Network,
    BladeError,
> {
    if f.values.len() + 3 >= usize::MAX {
        Err(BladeError::NetworkTooLarge)
    } else {
        match classify_blocks(Network::for_values(f.values.len()), f, store_values_are_sinks, 0) {
            Ok(classified) => match cfg_error(f, cfg) {
                Some(e) => Err(e),
                None => dataflow_edges(classified, f, cfg, 0),
            },
            Err(e) => Err(e),
        }
    }
}

/// Marks each of the values `results` as a source.
fn mark_sources(builder: &mut BladeGraphBuilder, results: &Vec<Value>) -> (r: Result<(), BladeError>)
    requires
        old(builder).wf(),
        forall|k: int| 0 <= k < results@.len() ==> (#[trigger] results@[k]).0 < old(builder)@.values,
    ensures
        final(builder).wf(),
        final(builder)@.values == old(builder)@.values,
        match r {
            Ok(()) => source_edges(old(builder)@, results@, 0) == Ok::<Network, BladeError>(final(builder)@),
            Err(e) => source_edges(old(builder)@, results@, 0) == Err::<Network, BladeError>(e),
        },
{
    let ghost init = builder@;
    let mut k: usize = 0;
    while k < results.len()
        invariant
            init == old(builder)@,
            builder.wf(),
            builder@.values == init.values,
            k <= results@.len(),
            forall|j: int| 0 <= j < results@.len() ==> (#[trigger] results@[j]).0 < init.values,
            source_edges(init, results@, 0) == source_edges(builder@, results@, k as int),
        decreases results@.len() - k,
    {
        match builder.mark_as_source(results[k]) {
            Ok(()) => {},
            Err(e) => {
                return Err(e);
            },
        }
        k = k + 1;
    }
    Ok(())
}

/// Adds a sink node for `inst` and an edge into it from each of the values
/// `args[from]` up to, but without, `args[to]`.
fn add_sink_edges(builder: &mut BladeGraphBuilder, inst: Inst, args: &Vec<Value>, from: usize, to: usize) -> (r:
    Result<(), BladeError>)
    requires
        old(builder).wf(),
        to <= args@.len(),
        forall|k: int| 0 <= k < args@.len() ==> (#[trigger] args@[k]).0 < old(builder)@.values,
    ensures
        final(builder).wf(),
        final(builder)@.values == old(builder)@.values,
        match r {
            Ok(()) => sink_edges(old(builder)@, inst, args@, from as int, to as int) == Ok::<
                Network,
                BladeError,
            >(final(builder)@),
            Err(e) => sink_edges(old(builder)@, inst, args@, from as int, to as int) == Err::<
                Network,
                BladeError,
            >(e),
        },
{
    let ghost init = builder@;
    let node = match builder.add_sink_node_for_inst(inst) {
        Ok(node) => node,
        Err(e) => {
            return Err(e);
        },
    };
    let mut k: usize = from;
    while k < to
        invariant
            init == old(builder)@,
            builder.wf(),
            builder@.values == init.values,
            builder@.is_interior(node),
            from <= k,
            to <= args@.len(),
            forall|j: int| 0 <= j < args@.len() ==> (#[trigger] args@[j]).0 < init.values,
            sink_edges(init, inst, args@, from as int, to as int) == arg_edges(
                builder@,
                args@,
                node,
                k as int,
                to as int,
            ),
        decreases to - k,
    {
        match builder.add_edge_from_value_to_node(args[k], node) {
            Ok(()) => {},
            Err(e) => {
                return Err(e);
            },
        }
        k = k + 1;
    }
    Ok(())
}

/// Adds an edge from `node` to each of the values `results`.
fn add_result_edges(builder: &mut BladeGraphBuilder, node: usize, results: &Vec<Value>) -> (r: Result<
    (),
    BladeError,
>)
    requires
        old(builder).wf(),
        old(builder)@.has_node(node),
        node != SINK_NODE,
        forall|k: int| 0 <= k < results@.len() ==> (#[trigger] results@[k]).0 < old(builder)@.values,
    ensures
        final(builder).wf(),
        final(builder)@.values == old(builder)@.values,
        final(builder)@.labels == old(builder)@.labels,
        match r {
            Ok(()) => result_edges(old(builder)@, node, results@, 0) == Ok::<Network, BladeError>(
                final(builder)@,
            ),
            Err(e) => result_edges(old(builder)@, node, results@, 0) == Err::<Network, BladeError>(e),
        },
{
    let ghost init = builder@;
    let mut k: usize = 0;
    while k < results.len()
        invariant
            init == old(builder)@,
            builder.wf(),
            builder@.values == init.values,
            builder@.labels == init.labels,
            init.has_node(node),
            node != SINK_NODE,
            k <= results@.len(),
            forall|j: int| 0 <= j < results@.len() ==> (#[trigger] results@[j]).0 < init.values,
            result_edges(init, node, results@, 0) == result_edges(builder@, node, results@, k as int),
        decreases results@.len() - k,
    {
        match builder.add_edge_from_node_to_value(node, results[k]) {
            Ok(()) => {},
            Err(e) => {
                return Err(e);
            },
        }
        k = k + 1;
    }
    Ok(())
}

/// Adds what one instruction contributes as a source and as a sink.
fn add_inst(builder: &mut BladeGraphBuilder, func: &Function, inst: Inst, store_values_are_sinks: bool) -> (r:
    Result<(), BladeError>)
    requires
        old(builder).wf(),
        func.wf(),
        func@.has_inst(inst),
        old(builder)@.values == func@.values.len(),
    ensures
        final(builder).wf(),
        final(builder)@.values == old(builder)@.values,
        match r {
            Ok(()) => classify_inst(old(builder)@, func@, inst, store_values_are_sinks) == Ok::<
                Network,
                BladeError,
            >(final(builder)@),
            Err(e) => classify_inst(old(builder)@, func@, inst, store_values_are_sinks) == Err::<
                Network,
                BladeError,
            >(e),
        },
{
    let op = func.opcode(inst);
    let args = func.inst_args(inst);
    let results = func.inst_results(inst);
    proof {
        let f = func@;
        assert forall|k: int| 0 <= k < args@.len() implies (#[trigger] args@[k]).0 < f.values.len() by {
            assert(f.has_value(f.insts[inst.0 as int].args[k]));
        }
        assert forall|k: int| 0 <= k < results@.len() implies (#[trigger] results@[k]).0
            < f.values.len() by {
            assert(f.has_value(f.insts[inst.0 as int].results[k]));
        }
        assert(f.insts[inst.0 as int].fixed <= f.insts[inst.0 as int].args.len());
    }
    if op.can_load() {
        // a load is a source by what it loads and a sink by its address,
        // unless it reloads a stack slot
        match mark_sources(builder, results) {
            Ok(()) => {},
            Err(e) => {
                return Err(e);
            },
        }
        if !op.is_fill() {
            match add_sink_edges(builder, inst, args, 0, args.len()) {
                Ok(()) => {},
                Err(e) => {
                    return Err(e);
                },
            }
        }
    } else if op.can_store() {
        // the stored value comes first, the address components follow
        let from: usize = if store_values_are_sinks { 0 } else { 1 };
        match add_sink_edges(builder, inst, args, from, args.len()) {
            Ok(()) => {},
            Err(e) => {
                return Err(e);
            },
        }
    } else if op.is_branch() {
        // the fixed arguments are the condition or the target; the rest is
        // handed on to the destination block
        match add_sink_edges(builder, inst, args, 0, func.num_fixed_args(inst)) {
            Ok(()) => {},
            Err(e) => {
                return Err(e);
            },
        }
    }
    if op.is_call() {
        // what a call returns may be a source; its arguments must be
        // stable, since the callee is not analysed
        match mark_sources(builder, results) {
            Ok(()) => {},
            Err(e) => {
                return Err(e);
            },
        }
        match add_sink_edges(builder, inst, args, 0, args.len()) {
            Ok(()) => {},
            Err(e) => {
                return Err(e);
            },
        }
    }
    Ok(())
}

/// Adds the data-flow edges of one use of the value at `node`.
fn add_use_edges(builder: &mut BladeGraphBuilder, func: &Function, node: usize, val_use: ValueUse) -> (r:
    Result<(), BladeError>)
    requires
        old(builder).wf(),
        func.wf(),
        old(builder)@.values == func@.values.len(),
        old(builder)@.has_node(node),
        node != SINK_NODE,
        crate::defuse::use_fits(func@, val_use),
    ensures
        final(builder).wf(),
        final(builder)@.values == old(builder)@.values,
        final(builder)@.labels == old(builder)@.labels,
        match r {
            Ok(()) => use_edges(old(builder)@, func@, node, val_use) == Ok::<Network, BladeError>(
                final(builder)@,
            ),
            Err(e) => use_edges(old(builder)@, func@, node, val_use) == Err::<Network, BladeError>(e),
        },
{
    match val_use {
        ValueUse::Inst(inst_use) => {
            // every result is taken to depend on every operand
            let results = func.inst_results(inst_use);
            proof {
                let f = func@;
                assert forall|k: int| 0 <= k < results@.len() implies (#[trigger] results@[k]).0
                    < f.values.len() by {
                    assert(f.has_value(f.insts[inst_use.0 as int].results[k]));
                }
            }
            add_result_edges(builder, node, results)
        },
        ValueUse::Value(param) => builder.add_edge_from_node_to_value(node, param),
    }
}

/// Builds the flow network of `func`, whose control-flow graph is `cfg`.
///
/// `store_values_are_sinks`: whether the value that a store writes counts
/// as a sink beside the address that it writes to.
///
/// Fails where a control-flow edge is malformed, and where the network
/// outgrows what the graph can number.
pub fn build_blade_graph_for_func(func: &Function, cfg: &ControlFlowGraph, store_values_are_sinks: bool) -> (r:
    Result<BladeGraph, BladeError>)
    requires
        func.wf(),
        cfg.fits(func@),
    ensures
        match r {
            Ok(g) => g.wf() && flow_network(func@, cfg@, store_values_are_sinks) == Ok::<
                Network,
                BladeError,
            >(g@),
            Err(e) => flow_network(func@, cfg@, store_values_are_sinks) == Err::<Network, BladeError>(e),
        },
{
    let ghost f = func@;
    let ghost c = cfg@;
    let mut builder = match BladeGraphBuilder::with_nodes_for_func(func) {
        Ok(builder) => builder,
        Err(e) => {
            return Err(e);
        },
    };
    let ghost start = builder@;

    // find sources and sinks
    let nblocks = func.num_blocks();
    let mut b: usize = 0;
    while b < nblocks
        invariant
            func.wf(),
            f == func@,
            c == cfg@,
            cfg.fits(f),
            nblocks == f.blocks.len(),
            b <= nblocks,
            builder.wf(),
            builder@.values == f.values.len(),
            f.values.len() + 3 < usize::MAX,
            start == Network::for_values(f.values.len()),
            classify_blocks(start, f, store_values_are_sinks, 0) == classify_blocks(
                builder@,
                f,
                store_values_are_sinks,
                b as int,
            ),
        decreases nblocks - b,
    {
        let insts = func.block_insts(Block(b));
        let ghost at_block = builder@;
        let mut i: usize = 0;
        while i < insts.len()
            invariant
                func.wf(),
                f == func@,
                c == cfg@,
                b < f.blocks.len(),
                insts@ == f.blocks[b as int].insts,
                i <= insts@.len(),
                builder.wf(),
                builder@.values == f.values.len(),
                f.values.len() + 3 < usize::MAX,
                start == Network::for_values(f.values.len()),
                classify_blocks(start, f, store_values_are_sinks, 0) == classify_blocks(
                    at_block,
                    f,
                    store_values_are_sinks,
                    b as int,
                ),
                classify_insts(at_block, f, insts@, store_values_are_sinks, 0) == classify_insts(
                    builder@,
                    f,
                    insts@,
                    store_values_are_sinks,
                    i as int,
                ),
            decreases insts@.len() - i,
        {
            let inst = insts[i];
            assert(f.has_inst(f.blocks[b as int].insts[i as int]));
            match add_inst(&mut builder, func, inst, store_values_are_sinks) {
                Ok(()) => {},
                Err(e) => {
                    return Err(e);
                },
            }
            i = i + 1;
        }
        b = b + 1;
    }

    // add the edges along which data flows: in `x = load y; z = x + 2;
    // branch on z` the source edge to `x` and the sink edge from `z` are
    // there, and `x -> z` is still missing
    let def_use_graph = match DefUseGraph::for_function(func, cfg) {
        Ok(graph) => graph,
        Err(e) => {
            return Err(e);
        },
    };
    let ghost classified = builder@;
    let nvalues = func.num_values();
    let mut v: usize = 0;
    while v < nvalues
        invariant
            func.wf(),
            f == func@,
            c == cfg@,
            nvalues == f.values.len(),
            v <= nvalues,
            builder.wf(),
            builder@.values == f.values.len(),
            f.values.len() + 3 < usize::MAX,
            start == Network::for_values(f.values.len()),
            classify_blocks(start, f, store_values_are_sinks, 0) == Ok::<Network, BladeError>(classified),
            cfg_error(f, c) is None,
            def_use_graph@.len() == f.values.len(),
            forall|j: int|
                0 <= j < f.values.len() ==> #[trigger] def_use_graph@[j] == uses_of(f, c, Value(j as usize)),
            dataflow_edges(classified, f, c, 0) == dataflow_edges(builder@, f, c, v as int),
        decreases nvalues - v,
    {
        let val = Value(v);
        let node = builder.node_of_value(val);
        let uses = def_use_graph.uses_of_val(val);
        proof {
            assert(uses@ == def_use_graph@[v as int]);
            lemma_uses_fit(f, c, val);
        }
        let ghost at_value = builder@;
        let mut u: usize = 0;
        while u < uses.len()
            invariant
                func.wf(),
                f == func@,
                c == cfg@,
                v < f.values.len(),
                val == Value(v),
                node == v + 2,
                uses@ == uses_of(f, c, val),
                uses_fit(f, uses@),
                u <= uses@.len(),
                builder.wf(),
                builder@.values == f.values.len(),
                builder@.has_node(node),
                f.values.len() + 3 < usize::MAX,
                start == Network::for_values(f.values.len()),
                classify_blocks(start, f, store_values_are_sinks, 0) == Ok::<Network, BladeError>(
                    classified,
                ),
                cfg_error(f, c) is None,
                dataflow_edges(classified, f, c, 0) == dataflow_edges(at_value, f, c, v as int),
                uses_edges(at_value, f, node, uses@, 0) == uses_edges(builder@, f, node, uses@, u as int),
            decreases uses@.len() - u,
        {
            match add_use_edges(&mut builder, func, node, uses[u]) {
                Ok(()) => {},
                Err(e) => {
                    return Err(e);
                },
            }
            u = u + 1;
        }
        v = v + 1;
    }
    Ok(builder.build())
}

/// The flow network is a function of the function, its control-flow graph
/// and the flag: two networks built from the same three are the same
/// network, node for node and edge for edge.
pub proof fn lemma_flow_network_deterministic(
    f: FunctionView,
    cfg: Seq<Seq<BlockPredecessor>>,
    store_values_are_sinks: bool,
    first: Network,
    second: Network,
)
    requires
        flow_network(f, cfg, store_values_are_sinks) == Ok::<Network, BladeError>(first),
        flow_network(f, cfg, store_values_are_sinks) == Ok::<Network, BladeError>(second),
    ensures
        first.labels == second.labels,
        first.edges == second.edges,
        first == second,
{
}

} // verus!
