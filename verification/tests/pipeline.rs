use blade::construct::build_blade_graph_for_func;
use blade::graph::BladeGraph;
use blade::ir::{Block, ControlFlowGraph, Function, Inst, IntCC, Opcode, Type, Value};
use blade::network::{BladeNode, SINK_NODE, SOURCE_NODE};
use blade::pass::do_blade;
use blade::settings::Blade;

fn inst(func: &mut Function, block: Block, op: Opcode, args: Vec<Value>, fixed: usize, results: usize) -> Inst {
    let mut tys = Vec::new();
    for _ in 0..results {
        tys.push(Type::I64);
    }
    let inst = func.make_inst(op, args, fixed, 0, None, tys);
    func.append_inst(inst, block);
    inst
}

fn has_edge(graph: &BladeGraph, tail: usize, head: usize) -> bool {
    (0..graph.num_edges()).any(|e| graph.edge_ends(e) == (tail, head))
}

fn node_of(value: Value) -> usize {
    value.0 + 2
}

fn sink_node_of(graph: &BladeGraph, inst: Inst) -> Option<usize> {
    let nodes: Vec<usize> =
        (0..graph.num_nodes()).filter(|&n| graph.bladenode(n) == Some(BladeNode::Sink(inst))).collect();
    assert!(nodes.len() <= 1, "an instruction has more than one sink node");
    nodes.first().copied()
}

fn fences(func: &Function) -> (Vec<usize>, Vec<usize>) {
    let mut pre = Vec::new();
    let mut post = Vec::new();
    for i in 0..func.num_insts() {
        if func.pre_lfence(Inst(i)) {
            pre.push(i);
        }
        if func.post_lfence(Inst(i)) {
            post.push(i);
        }
    }
    (pre, post)
}

/// `addr` is the parameter of the only block; `x = load addr`;
/// `y = iadd_imm x, 1`; `brnz y`.
fn load_add_branch() -> (Function, ControlFlowGraph, Value, Value, Value, Inst, Inst, Inst) {
    let mut func = Function::new();
    let block = func.create_block();
    let addr = func.append_block_param(block, Type::I64);
    let load = inst(&mut func, block, Opcode::Load, vec![addr], 1, 1);
    let x = func.inst_results(load)[0];
    let add = inst(&mut func, block, Opcode::IaddImm, vec![x], 1, 1);
    let y = func.inst_results(add)[0];
    let branch = inst(&mut func, block, Opcode::Brnz, vec![y], 1, 0);
    let cfg = ControlFlowGraph::with_blocks(func.num_blocks());
    (func, cfg, addr, x, y, load, add, branch)
}

#[test]
fn load_add_branch_network_edges() {
    let (func, cfg, addr, x, y, load, _add, branch) = load_add_branch();
    let graph = build_blade_graph_for_func(&func, &cfg, true).unwrap();
    let load_sink = sink_node_of(&graph, load).expect("the load has a sink node");
    let branch_sink = sink_node_of(&graph, branch).expect("the branch has a sink node");
    assert!(has_edge(&graph, node_of(addr), load_sink));
    assert!(has_edge(&graph, SOURCE_NODE, node_of(x)));
    assert!(has_edge(&graph, node_of(x), node_of(y)));
    assert!(has_edge(&graph, node_of(y), branch_sink));
    assert!(has_edge(&graph, load_sink, SINK_NODE));
    assert!(has_edge(&graph, branch_sink, SINK_NODE));
    // the loaded value depends on the address
    assert!(has_edge(&graph, node_of(addr), node_of(x)));
    // two terminals, three values, two sinks
    assert_eq!(graph.num_nodes(), 7);
    assert_eq!(graph.num_edges(), 7);
}

#[test]
fn load_add_branch_min_cut_has_one_edge() {
    let (func, cfg, ..) = load_add_branch();
    let graph = build_blade_graph_for_func(&func, &cfg, true).unwrap();
    let cut = graph.min_cut().unwrap();
    assert_eq!(cut.len(), 1);
}

#[test]
fn load_add_branch_gets_one_precise_fence() {
    let (mut func, cfg, _addr, _x, _y, load, add, branch) = load_add_branch();
    assert_eq!(do_blade(&mut func, &cfg, Blade::Lfence), Ok(()));
    let (pre, post) = fences(&func);
    assert_eq!(pre.len() + post.len(), 1);
    // after the load, or before the add or the branch, depending on the cut
    assert!(post == vec![load.0] || pre == vec![add.0] || pre == vec![branch.0]);
    // no instruction was added
    assert_eq!(func.num_insts(), 3);
}

#[test]
fn load_add_branch_gets_one_fence_at_block_start() {
    let (mut func, cfg, _addr, _x, _y, load, ..) = load_add_branch();
    assert_eq!(do_blade(&mut func, &cfg, Blade::LfencePerBlock), Ok(()));
    let (pre, post) = fences(&func);
    // no call or branch comes before the cut point: the fence goes to the
    // start of the block
    assert_eq!(pre, vec![load.0]);
    assert!(post.is_empty());
}

#[test]
fn load_add_branch_gets_its_pointer_masked() {
    let (mut func, cfg, addr, _x, _y, load, ..) = load_add_branch();
    let upper = func.append_block_param(Block(0), Type::I64);
    func.set_bounds(addr, Some(blade::ir::Bounds { lower: addr, upper, directly_annotated: true }));
    let values_before = func.num_values();
    assert_eq!(do_blade(&mut func, &cfg, Blade::Slh), Ok(()));
    // nine instructions compute the mask, each with one result
    assert_eq!(func.num_insts(), 3 + 9);
    assert_eq!(func.num_values(), values_before + 9);
    let masked = func.inst_args(load)[0];
    assert_ne!(masked, addr);
    assert_eq!(masked, Value(values_before + 8));
    let band = match func.value_def(masked) {
        blade::ir::ValueDef::Result(inst, 0) => inst,
        other => panic!("unexpected definition {:?}", other),
    };
    assert_eq!(func.opcode(band), Opcode::Band);
    assert_eq!(func.inst_args(band)[0], addr);
    let mask = func.inst_args(band)[1];
    let select_upper = match func.value_def(mask) {
        blade::ir::ValueDef::Result(inst, 0) => inst,
        other => panic!("unexpected definition {:?}", other),
    };
    assert_eq!(func.opcode(select_upper), Opcode::Selectif);
    assert_eq!(func.inst_cond(select_upper), Some(IntCC::UnsignedLessThanOrEqual));
    let select_lower = match func.value_def(func.inst_args(select_upper)[1]) {
        blade::ir::ValueDef::Result(inst, 0) => inst,
        other => panic!("unexpected definition {:?}", other),
    };
    assert_eq!(func.opcode(select_lower), Opcode::Selectif);
    assert_eq!(func.inst_cond(select_lower), Some(IntCC::UnsignedGreaterThanOrEqual));
    // the new instructions stand right before the load, in order
    let insts: Vec<usize> = func.block_insts(Block(0)).iter().map(|i| i.0).collect();
    assert_eq!(insts, vec![3, 4, 5, 6, 7, 8, 9, 10, 11, 0, 1, 2]);
    // no fence markers
    let (pre, post) = fences(&func);
    assert!(pre.is_empty() && post.is_empty());
}

#[test]
fn stored_value_is_a_sink_only_on_demand() {
    let mut func = Function::new();
    let block = func.create_block();
    let v = func.append_block_param(block, Type::I64);
    let addr = func.append_block_param(block, Type::I64);
    let store = inst(&mut func, block, Opcode::Store, vec![v, addr], 2, 0);
    let cfg = ControlFlowGraph::with_blocks(1);
    let graph = build_blade_graph_for_func(&func, &cfg, false).unwrap();
    let sink = sink_node_of(&graph, store).expect("the store has a sink node");
    assert!(has_edge(&graph, node_of(addr), sink));
    assert!(!has_edge(&graph, node_of(v), sink));
    let graph = build_blade_graph_for_func(&func, &cfg, true).unwrap();
    let sink = sink_node_of(&graph, store).expect("the store has a sink node");
    assert!(has_edge(&graph, node_of(addr), sink));
    assert!(has_edge(&graph, node_of(v), sink));
}

#[test]
fn call_results_are_sources_and_arguments_sinks() {
    let mut func = Function::new();
    let block = func.create_block();
    let a = func.append_block_param(block, Type::I64);
    let b = func.append_block_param(block, Type::I64);
    let call = inst(&mut func, block, Opcode::Call, vec![a, b], 0, 1);
    let r = func.inst_results(call)[0];
    let cfg = ControlFlowGraph::with_blocks(1);
    let graph = build_blade_graph_for_func(&func, &cfg, true).unwrap();
    let sink = sink_node_of(&graph, call).expect("the call has a sink node");
    assert!(has_edge(&graph, SOURCE_NODE, node_of(r)));
    assert!(has_edge(&graph, node_of(a), sink));
    assert!(has_edge(&graph, node_of(b), sink));
    assert!(graph.is_source_node(node_of(r)));
    assert!(!graph.is_source_node(node_of(a)));
}

#[test]
fn off_changes_nothing() {
    let (mut func, cfg, addr, _x, _y, load, ..) = load_add_branch();
    assert_eq!(do_blade(&mut func, &cfg, Blade::Off), Ok(()));
    let (pre, post) = fences(&func);
    assert!(pre.is_empty() && post.is_empty());
    assert_eq!(func.num_insts(), 3);
    assert_eq!(func.num_values(), 3);
    assert_eq!(func.inst_args(load), &vec![addr]);
}

/// block0(v0): `x = load v0; jump block1(x)`;
/// block1(p): `q = iadd p, p; store q, p; brnz q, block1(p)`: `p` is handed
/// to itself, and `p` and `q` feed each other round the loop.
fn looping() -> (Function, ControlFlowGraph, Inst) {
    let mut func = Function::new();
    let block0 = func.create_block();
    let block1 = func.create_block();
    let v0 = func.append_block_param(block0, Type::I64);
    let p = func.append_block_param(block1, Type::I64);
    let load = inst(&mut func, block0, Opcode::Load, vec![v0], 1, 1);
    let x = func.inst_results(load)[0];
    let jump = inst(&mut func, block0, Opcode::Jump, vec![x], 0, 0);
    let add = inst(&mut func, block1, Opcode::Iadd, vec![p, p], 2, 1);
    let q = func.inst_results(add)[0];
    inst(&mut func, block1, Opcode::Store, vec![q, p], 2, 0);
    let back = inst(&mut func, block1, Opcode::Brnz, vec![q, p], 1, 0);
    let mut cfg = ControlFlowGraph::with_blocks(2);
    cfg.add_edge(block0, jump, block1);
    cfg.add_edge(block1, back, block1);
    (func, cfg, load)
}

#[test]
fn loop_carried_values_are_cut_once() {
    let (func, cfg, load) = looping();
    let graph = build_blade_graph_for_func(&func, &cfg, true).unwrap();
    // `p` is forwarded to itself
    assert!(has_edge(&graph, 3, 3));
    let x = func.inst_results(load)[0];
    // whatever reaches the sinks comes through `x`
    let cut = graph.min_cut().unwrap();
    assert_eq!(cut.len(), 1);
    let (tail, head) = graph.edge_ends(cut[0]);
    assert!((tail, head) == (SOURCE_NODE, node_of(x)) || tail == node_of(x));
    for setting in [Blade::Lfence, Blade::LfencePerBlock] {
        let (mut fenced, cfg, _) = looping();
        assert_eq!(do_blade(&mut fenced, &cfg, setting), Ok(()));
        let (pre, post) = fences(&fenced);
        assert_eq!(pre.len() + post.len(), 1);
        assert_eq!(fenced.num_insts(), 5);
    }
    // masking goes back to the load, wherever the cut is
    let (mut masked, cfg, load) = looping();
    assert_eq!(do_blade(&mut masked, &cfg, Blade::Slh), Ok(()));
    assert_eq!(masked.num_insts(), 5 + 10);
    let pointer = masked.inst_args(load)[0];
    let band = match masked.value_def(pointer) {
        blade::ir::ValueDef::Result(inst, _) => inst,
        other => panic!("unexpected definition {:?}", other),
    };
    assert_eq!(masked.opcode(band), Opcode::Band);
    let (pre, post) = fences(&masked);
    assert!(pre.is_empty() && post.is_empty());
}
