use blade::construct::build_blade_graph_for_func;
use blade::ir::{Block, ControlFlowGraph, Function, Inst, Opcode, Type, Value};
use blade::network::{SINK_NODE, SOURCE_NODE};

fn inst(func: &mut Function, block: Block, op: Opcode, args: Vec<Value>, fixed: usize, results: usize) -> Inst {
    let mut tys = Vec::new();
    for _ in 0..results {
        tys.push(Type::I64);
    }
    let inst = func.make_inst(op, args, fixed, 0, None, tys);
    func.append_inst(inst, block);
    inst
}

#[test]
fn ancestors_along_a_chain() {
    let mut func = Function::new();
    let block = func.create_block();
    let addr = func.append_block_param(block, Type::I64);
    let load = inst(&mut func, block, Opcode::Load, vec![addr], 1, 1);
    let x = func.inst_results(load)[0];
    let add = inst(&mut func, block, Opcode::IaddImm, vec![x], 1, 1);
    let y = func.inst_results(add)[0];
    let _branch = inst(&mut func, block, Opcode::Brnz, vec![y], 1, 0);
    let cfg = ControlFlowGraph::with_blocks(1);
    let graph = build_blade_graph_for_func(&func, &cfg, true).unwrap();
    // a source node is its own only ancestor
    assert_eq!(graph.ancestors_of(x.0 + 2), vec![x.0 + 2]);
    // what flows from it is traced back to it
    assert_eq!(graph.ancestors_of(y.0 + 2), vec![x.0 + 2]);
    let branch_sink = graph.num_nodes() - 1;
    assert_eq!(graph.ancestors_of(branch_sink), vec![x.0 + 2]);
    // nothing leads from the source to the address
    assert!(graph.ancestors_of(addr.0 + 2).is_empty());
    let load_sink = graph.num_nodes() - 2;
    assert!(graph.ancestors_of(load_sink).is_empty());
    // the terminals
    assert!(graph.ancestors_of(SOURCE_NODE).is_empty());
    assert_eq!(graph.ancestors_of(SINK_NODE), vec![x.0 + 2]);
}

#[test]
fn ancestors_stop_at_the_first_source() {
    let mut func = Function::new();
    let block = func.create_block();
    let addr = func.append_block_param(block, Type::I64);
    let first = inst(&mut func, block, Opcode::Load, vec![addr], 1, 1);
    let x = func.inst_results(first)[0];
    let second = inst(&mut func, block, Opcode::Load, vec![x], 1, 1);
    let y = func.inst_results(second)[0];
    let add = inst(&mut func, block, Opcode::Iadd, vec![y, addr], 2, 1);
    let z = func.inst_results(add)[0];
    let cfg = ControlFlowGraph::with_blocks(1);
    let graph = build_blade_graph_for_func(&func, &cfg, true).unwrap();
    // `y` is a source itself: the trace does not go on to `x`
    assert_eq!(graph.ancestors_of(y.0 + 2), vec![y.0 + 2]);
    assert_eq!(graph.ancestors_of(z.0 + 2), vec![y.0 + 2]);
}

#[test]
fn ancestors_of_a_join_come_in_ascending_order() {
    let mut func = Function::new();
    let block = func.create_block();
    let p = func.append_block_param(block, Type::I64);
    let load_a = inst(&mut func, block, Opcode::Load, vec![p], 1, 1);
    let a = func.inst_results(load_a)[0];
    let call = inst(&mut func, block, Opcode::Call, vec![], 0, 2);
    let r0 = func.inst_results(call)[0];
    let r1 = func.inst_results(call)[1];
    // the later source first
    let add = inst(&mut func, block, Opcode::Iadd, vec![r1, a], 2, 1);
    let sum = func.inst_results(add)[0];
    let add2 = inst(&mut func, block, Opcode::Iadd, vec![sum, sum], 2, 1);
    let twice = func.inst_results(add2)[0];
    let cfg = ControlFlowGraph::with_blocks(1);
    let graph = build_blade_graph_for_func(&func, &cfg, true).unwrap();
    assert_eq!(graph.ancestors_of(sum.0 + 2), vec![a.0 + 2, r1.0 + 2]);
    // two ways lead back from `twice` to `sum`: each source is named once
    assert_eq!(graph.ancestors_of(twice.0 + 2), vec![a.0 + 2, r1.0 + 2]);
    assert_eq!(graph.ancestors_of(r0.0 + 2), vec![r0.0 + 2]);
}

#[test]
fn ancestors_in_a_loop() {
    // block0(v0): `x = load v0; jump block1(x)`;
    // block1(p): `q = iadd p, p; brnz q, block1(q)`
    let mut func = Function::new();
    let block0 = func.create_block();
    let block1 = func.create_block();
    let v0 = func.append_block_param(block0, Type::I64);
    let p = func.append_block_param(block1, Type::I64);
    let load = inst(&mut func, block0, Opcode::Load, vec![v0], 1, 1);
    let x = func.inst_results(load)[0];
    let jump = inst(&mut func, block0, Opcode::Jump, vec![x], 0, 0);
    let add = inst(&mut func, block1, Opcode::Iadd, vec![p, p], 2, 1);
    let q = func.inst_results(add)[0];
    let back = inst(&mut func, block1, Opcode::Brnz, vec![q, q], 1, 0);
    let mut cfg = ControlFlowGraph::with_blocks(2);
    cfg.add_edge(block0, jump, block1);
    cfg.add_edge(block1, back, block1);
    let graph = build_blade_graph_for_func(&func, &cfg, true).unwrap();
    // p -> q -> p is a cycle in the network
    assert_eq!(graph.ancestors_of(p.0 + 2), vec![x.0 + 2]);
    assert_eq!(graph.ancestors_of(q.0 + 2), vec![x.0 + 2]);
    assert!(graph.ancestors_of(v0.0 + 2).is_empty());
}
