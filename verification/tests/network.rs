use blade::construct::build_blade_graph_for_func;
use blade::error::BladeError;
use blade::graph::{BladeGraph, BladeGraphBuilder};
use blade::ir::{Block, ControlFlowGraph, Function, Inst, Opcode, Type, Value};
use blade::network::{BladeNode, SINK_NODE, SOURCE_NODE};

fn inst(func: &mut Function, block: Block, op: Opcode, args: Vec<Value>, fixed: usize, results: usize) -> Inst {
    let mut tys = Vec::new();
    for _ in 0..results {
        tys.push(Type::I64);
    }
    let inst = func.make_inst(op, args, fixed, 0, None, tys);
    func.append_inst(inst, block);
    inst
}

fn edges(graph: &BladeGraph) -> Vec<(usize, usize)> {
    (0..graph.num_edges()).map(|e| graph.edge_ends(e)).collect()
}

fn labels(graph: &BladeGraph) -> Vec<Option<BladeNode>> {
    (0..graph.num_nodes()).map(|n| graph.bladenode(n)).collect()
}

fn sink_nodes(graph: &BladeGraph, inst: Inst) -> usize {
    labels(graph).iter().filter(|&&l| l == Some(BladeNode::Sink(inst))).count()
}

/// Whether a walk leads from `from` to `to` along edges that are not in
/// `removed`.
fn reaches(graph: &BladeGraph, removed: &[usize], from: usize, to: usize) -> bool {
    let mut seen = vec![false; graph.num_nodes()];
    let mut stack = vec![from];
    seen[from] = true;
    while let Some(node) = stack.pop() {
        if node == to {
            return true;
        }
        for e in 0..graph.num_edges() {
            let (tail, head) = graph.edge_ends(e);
            if tail == node && !removed.contains(&e) && !seen[head] {
                seen[head] = true;
                stack.push(head);
            }
        }
    }
    false
}

/// Two loads whose sum is loaded from and branched on, with a call and a
/// stack reload on the side.
fn busy() -> (Function, ControlFlowGraph, Vec<Inst>) {
    let mut func = Function::new();
    let block = func.create_block();
    let p = func.append_block_param(block, Type::I64);
    let q = func.append_block_param(block, Type::I64);
    let load_p = inst(&mut func, block, Opcode::Load, vec![p], 1, 1);
    let load_q = inst(&mut func, block, Opcode::Load, vec![q], 1, 1);
    let a = func.inst_results(load_p)[0];
    let b = func.inst_results(load_q)[0];
    let add = inst(&mut func, block, Opcode::Iadd, vec![a, b], 2, 1);
    let sum = func.inst_results(add)[0];
    let load_sum = inst(&mut func, block, Opcode::Load, vec![sum], 1, 1);
    let c = func.inst_results(load_sum)[0];
    let fill = inst(&mut func, block, Opcode::Fill, vec![q], 1, 1);
    let d = func.inst_results(fill)[0];
    let call = inst(&mut func, block, Opcode::Call, vec![c, d], 0, 1);
    let r = func.inst_results(call)[0];
    let store = inst(&mut func, block, Opcode::Store, vec![r, p], 2, 0);
    let branch = inst(&mut func, block, Opcode::Brnz, vec![sum, r], 1, 0);
    let ret = inst(&mut func, block, Opcode::Return, vec![], 0, 0);
    let cfg = ControlFlowGraph::with_blocks(1);
    (func, cfg, vec![load_p, load_q, add, load_sum, fill, call, store, branch, ret])
}

#[test]
fn network_of_a_function_without_instructions() {
    let mut func = Function::new();
    let block = func.create_block();
    let _v = func.append_block_param(block, Type::I64);
    let cfg = ControlFlowGraph::with_blocks(1);
    let graph = build_blade_graph_for_func(&func, &cfg, true).unwrap();
    assert_eq!(labels(&graph), vec![None, None, Some(BladeNode::ValueDef(Value(0)))]);
    assert!(edges(&graph).is_empty());
    assert_eq!(graph.min_cut(), Ok(vec![]));
}

#[test]
fn every_sink_instruction_has_one_sink_node() {
    let (func, cfg, insts) = busy();
    let graph = build_blade_graph_for_func(&func, &cfg, true).unwrap();
    let expected = [1, 1, 0, 1, 0, 1, 1, 1, 0];
    for (inst, count) in insts.iter().zip(expected) {
        assert_eq!(sink_nodes(&graph, *inst), count, "sink nodes of instruction {}", inst.0);
    }
    // the two terminals, the eight values, the six sinks
    assert_eq!(graph.num_nodes(), 2 + func.num_values() + 6);
}

#[test]
fn results_of_loads_and_calls_are_sources() {
    let (func, cfg, insts) = busy();
    let graph = build_blade_graph_for_func(&func, &cfg, true).unwrap();
    for (k, inst) in insts.iter().enumerate() {
        let source = matches!(func.opcode(*inst), Opcode::Load | Opcode::Fill | Opcode::Call);
        for result in func.inst_results(*inst) {
            assert_eq!(graph.is_source_node(result.0 + 2), source, "result of instruction {}", k);
        }
    }
    // parameters are no sources
    assert!(!graph.is_source_node(2));
    assert!(!graph.is_source_node(3));
}

#[test]
fn stack_reload_has_no_sink() {
    let mut func = Function::new();
    let block = func.create_block();
    let slot = func.append_block_param(block, Type::I64);
    let fill = inst(&mut func, block, Opcode::FillNop, vec![slot], 1, 1);
    let v = func.inst_results(fill)[0];
    let cfg = ControlFlowGraph::with_blocks(1);
    let graph = build_blade_graph_for_func(&func, &cfg, true).unwrap();
    assert_eq!(sink_nodes(&graph, fill), 0);
    assert_eq!(edges(&graph), vec![(SOURCE_NODE, v.0 + 2), (slot.0 + 2, v.0 + 2)]);
}

#[test]
fn branch_sink_takes_fixed_arguments_only() {
    let mut func = Function::new();
    let block0 = func.create_block();
    let block1 = func.create_block();
    let cond = func.append_block_param(block0, Type::I64);
    let passed = func.append_block_param(block0, Type::I64);
    let param = func.append_block_param(block1, Type::I64);
    let branch = inst(&mut func, block0, Opcode::Brz, vec![cond, passed], 1, 0);
    let mut cfg = ControlFlowGraph::with_blocks(2);
    cfg.add_edge(block0, branch, block1);
    let graph = build_blade_graph_for_func(&func, &cfg, true).unwrap();
    let sink = 2 + 3;
    assert_eq!(graph.bladenode(sink), Some(BladeNode::Sink(branch)));
    assert_eq!(
        edges(&graph),
        vec![(sink, SINK_NODE), (cond.0 + 2, sink), (passed.0 + 2, param.0 + 2)]
    );
}

#[test]
fn jump_has_a_sink_that_nothing_flows_into() {
    let mut func = Function::new();
    let block0 = func.create_block();
    let block1 = func.create_block();
    let v = func.append_block_param(block0, Type::I64);
    let p = func.append_block_param(block1, Type::I64);
    let jump = inst(&mut func, block0, Opcode::Jump, vec![v], 0, 0);
    let mut cfg = ControlFlowGraph::with_blocks(2);
    cfg.add_edge(block0, jump, block1);
    let graph = build_blade_graph_for_func(&func, &cfg, true).unwrap();
    assert_eq!(sink_nodes(&graph, jump), 1);
    assert_eq!(edges(&graph), vec![(4, SINK_NODE), (v.0 + 2, p.0 + 2)]);
}

#[test]
fn sink_nodes_are_numbered_in_layout_order() {
    let mut func = Function::new();
    let block0 = func.create_block();
    let block1 = func.create_block();
    let v = func.append_block_param(block0, Type::I64);
    // created first, placed in the second block
    let late = func.make_inst(Opcode::Store, vec![v, v], 2, 0, None, vec![]);
    let early = inst(&mut func, block0, Opcode::Store, vec![v, v], 2, 0);
    func.append_inst(late, block1);
    let cfg = ControlFlowGraph::with_blocks(2);
    let graph = build_blade_graph_for_func(&func, &cfg, false).unwrap();
    assert_eq!(
        labels(&graph),
        vec![
            None,
            None,
            Some(BladeNode::ValueDef(v)),
            Some(BladeNode::Sink(early)),
            Some(BladeNode::Sink(late)),
        ]
    );
}

#[test]
fn instruction_outside_the_layout_adds_nothing_as_source_or_sink() {
    let mut func = Function::new();
    let block = func.create_block();
    let v = func.append_block_param(block, Type::I64);
    let free = func.make_inst(Opcode::Load, vec![v], 1, 0, None, vec![Type::I64]);
    let cfg = ControlFlowGraph::with_blocks(1);
    let graph = build_blade_graph_for_func(&func, &cfg, true).unwrap();
    assert_eq!(sink_nodes(&graph, free), 0);
    assert!(!graph.is_source_node(func.inst_results(free)[0].0 + 2));
    assert!(edges(&graph).is_empty());
}

#[test]
fn building_twice_gives_the_same_network() {
    let (func, cfg, _) = busy();
    let first = build_blade_graph_for_func(&func, &cfg, true).unwrap();
    let (func, cfg, _) = busy();
    let second = build_blade_graph_for_func(&func, &cfg, true).unwrap();
    assert_eq!(labels(&first), labels(&second));
    assert_eq!(edges(&first), edges(&second));
    assert_eq!(first.min_cut(), second.min_cut());
}

#[test]
fn malformed_control_flow_edge_fails_the_network() {
    let mut func = Function::new();
    let block0 = func.create_block();
    let block1 = func.create_block();
    let v = func.append_block_param(block0, Type::I64);
    let jump = inst(&mut func, block0, Opcode::Jump, vec![v], 0, 0);
    let mut cfg = ControlFlowGraph::with_blocks(2);
    cfg.add_edge(block0, jump, block1);
    assert_eq!(build_blade_graph_for_func(&func, &cfg, true).err(), Some(BladeError::ArityMismatch));
}

#[test]
fn min_cut_separates_source_from_sink() {
    let (func, cfg, _) = busy();
    let graph = build_blade_graph_for_func(&func, &cfg, true).unwrap();
    assert!(reaches(&graph, &[], SOURCE_NODE, SINK_NODE));
    let cut = graph.min_cut().unwrap();
    assert!(!reaches(&graph, &cut, SOURCE_NODE, SINK_NODE));
    // no edge of the cut can be spared
    for spared in 0..cut.len() {
        let mut fewer = cut.clone();
        fewer.remove(spared);
        assert!(reaches(&graph, &fewer, SOURCE_NODE, SINK_NODE));
    }
    // the edges come in ascending order
    assert!(cut.windows(2).all(|w| w[0] < w[1]));
}

#[test]
fn cut_from_a_given_side() {
    let (func, cfg, _) = busy();
    let graph = build_blade_graph_for_func(&func, &cfg, true).unwrap();
    // the source alone: the cut is made of the edges that leave it
    let leaving: Vec<usize> =
        (0..graph.num_edges()).filter(|&e| graph.edge_ends(e).0 == SOURCE_NODE).collect();
    assert_eq!(leaving.len(), 5);
    assert_eq!(graph.cut_from_side(&vec![SOURCE_NODE], 5), Ok(leaving.clone()));
    // listing a node twice changes nothing
    assert_eq!(graph.cut_from_side(&vec![SOURCE_NODE, SOURCE_NODE], 5), Ok(leaving));
    // all but the sink: the cut is made of the edges into the sink
    let all: Vec<usize> = (0..graph.num_nodes()).filter(|&n| n != SINK_NODE).collect();
    let entering: Vec<usize> =
        (0..graph.num_edges()).filter(|&e| graph.edge_ends(e).1 == SINK_NODE).collect();
    assert_eq!(graph.cut_from_side(&all, entering.len()), Ok(entering));
}

#[test]
fn answer_that_is_no_cut_is_refused() {
    let (func, cfg, _) = busy();
    let graph = build_blade_graph_for_func(&func, &cfg, true).unwrap();
    // the flow value differs from the number of edges
    assert_eq!(graph.cut_from_side(&vec![SOURCE_NODE], 4), Err(BladeError::SolverFailure));
    // the source is missing
    assert_eq!(graph.cut_from_side(&vec![2], 0), Err(BladeError::SolverFailure));
    assert_eq!(graph.cut_from_side(&vec![], 0), Err(BladeError::SolverFailure));
    // the sink is on the source side
    assert_eq!(graph.cut_from_side(&vec![SOURCE_NODE, SINK_NODE], 5), Err(BladeError::SolverFailure));
    // a node that the network does not have
    assert_eq!(graph.cut_from_side(&vec![SOURCE_NODE, graph.num_nodes()], 5), Err(BladeError::SolverFailure));
}

#[test]
fn builder_adds_nodes_and_edges() {
    let mut func = Function::new();
    let block = func.create_block();
    let a = func.append_block_param(block, Type::I64);
    let b = func.append_block_param(block, Type::I64);
    let store = inst(&mut func, block, Opcode::Store, vec![a, b], 2, 0);
    let mut builder = BladeGraphBuilder::with_nodes_for_func(&func).ok().unwrap();
    assert_eq!(builder.node_of_value(a), 2);
    assert_eq!(builder.node_of_value(b), 3);
    assert_eq!(builder.mark_as_source(b), Ok(()));
    let sink = builder.add_sink_node_for_inst(store).unwrap();
    assert_eq!(sink, 4);
    assert_eq!(builder.add_edge_from_value_to_node(a, sink), Ok(()));
    assert_eq!(builder.add_edge_from_node_to_value(3, a), Ok(()));
    let graph = builder.build();
    assert_eq!(
        labels(&graph),
        vec![
            None,
            None,
            Some(BladeNode::ValueDef(a)),
            Some(BladeNode::ValueDef(b)),
            Some(BladeNode::Sink(store)),
        ]
    );
    assert_eq!(edges(&graph), vec![(SOURCE_NODE, 3), (4, SINK_NODE), (2, 4), (3, 2)]);
    assert!(graph.is_source_node(3));
    assert!(!graph.is_source_node(2));
    // source -> b -> a -> sink(store) -> sink: one edge cuts it
    assert_eq!(graph.min_cut().map(|cut| cut.len()), Ok(1));
}
