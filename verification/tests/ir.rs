use blade::ir::{Block, Bounds, ControlFlowGraph, Function, Inst, IntCC, Opcode, Type, Value, ValueDef};
use blade::ir::BlockPredecessor;

#[test]
fn type_sizes() {
    assert_eq!(Type::I8.bytes(), 1);
    assert_eq!(Type::I16.bytes(), 2);
    assert_eq!(Type::I32.bytes(), 4);
    assert_eq!(Type::I64.bytes(), 8);
    assert_eq!(Type::IFlags.bytes(), 0);
}

#[test]
fn opcode_classes() {
    let all = [
        Opcode::Iconst,
        Opcode::Iadd,
        Opcode::IaddImm,
        Opcode::Isub,
        Opcode::Band,
        Opcode::IntCompare,
        Opcode::Selectif,
        Opcode::Load,
        Opcode::Fill,
        Opcode::FillNop,
        Opcode::Store,
        Opcode::Jump,
        Opcode::Brz,
        Opcode::Brnz,
        Opcode::BrCompare,
        Opcode::Brif,
        Opcode::BrTable,
        Opcode::IndirectJumpTableBr,
        Opcode::Call,
        Opcode::CallIndirect,
        Opcode::Return,
    ];
    let loads: Vec<Opcode> = all.iter().copied().filter(|op| op.can_load()).collect();
    assert_eq!(loads, vec![Opcode::Load, Opcode::Fill, Opcode::FillNop]);
    let fills: Vec<Opcode> = all.iter().copied().filter(|op| op.is_fill()).collect();
    assert_eq!(fills, vec![Opcode::Fill, Opcode::FillNop]);
    let stores: Vec<Opcode> = all.iter().copied().filter(|op| op.can_store()).collect();
    assert_eq!(stores, vec![Opcode::Store]);
    let branches: Vec<Opcode> = all.iter().copied().filter(|op| op.is_branch()).collect();
    assert_eq!(
        branches,
        vec![
            Opcode::Jump,
            Opcode::Brz,
            Opcode::Brnz,
            Opcode::BrCompare,
            Opcode::Brif,
            Opcode::BrTable,
            Opcode::IndirectJumpTableBr,
        ]
    );
    let indirect: Vec<Opcode> = all.iter().copied().filter(|op| op.is_indirect_branch()).collect();
    assert_eq!(indirect, vec![Opcode::IndirectJumpTableBr]);
    let calls: Vec<Opcode> = all.iter().copied().filter(|op| op.is_call()).collect();
    assert_eq!(calls, vec![Opcode::Call, Opcode::CallIndirect]);
    for op in all {
        assert_eq!(op.ends_basic_block(), op.is_call() || op.is_branch());
        assert_eq!(op.passes_block_args(), (op.is_call() || op.is_branch()) && op != Opcode::BrTable);
    }
}

#[test]
fn function_under_construction() {
    let mut func = Function::new();
    assert_eq!((func.num_blocks(), func.num_insts(), func.num_values()), (0, 0, 0));
    let block0 = func.create_block();
    let block1 = func.create_block();
    assert_eq!((block0, block1), (Block(0), Block(1)));
    let p = func.append_block_param(block1, Type::I16);
    let q = func.append_block_param(block1, Type::I64);
    assert_eq!(func.block_params(block1), &vec![p, q]);
    assert!(func.block_params(block0).is_empty());
    assert_eq!(func.value_def(q), ValueDef::Param(block1, 1));
    assert_eq!(func.value_type(p), Type::I16);
    assert_eq!(func.bounds(p), None);
    let inst = func.make_inst(Opcode::Selectif, vec![p, q, q], 3, 7, Some(IntCC::Equal), vec![Type::I8, Type::I32]);
    assert_eq!(inst, Inst(0));
    assert_eq!(func.opcode(inst), Opcode::Selectif);
    assert_eq!(func.inst_args(inst), &vec![p, q, q]);
    assert_eq!(func.num_fixed_args(inst), 3);
    assert_eq!(func.inst_imm(inst), 7);
    assert_eq!(func.inst_cond(inst), Some(IntCC::Equal));
    assert_eq!(func.inst_results(inst), &vec![Value(2), Value(3)]);
    assert_eq!(func.value_def(Value(3)), ValueDef::Result(inst, 1));
    assert_eq!(func.value_type(Value(3)), Type::I32);
    assert_eq!(func.inst_block(inst), None);
    assert_eq!(func.first_inst(block0), None);
    func.append_inst(inst, block0);
    assert_eq!(func.inst_block(inst), Some(block0));
    assert_eq!(func.first_inst(block0), Some(inst));
    assert_eq!(func.inst_position(inst), 0);
    assert!(!func.pre_lfence(inst) && !func.post_lfence(inst));
}

#[test]
fn instructions_in_their_block() {
    let mut func = Function::new();
    let block = func.create_block();
    let a = func.make_inst(Opcode::Iconst, vec![], 0, 1, None, vec![Type::I64]);
    let b = func.make_inst(Opcode::Iconst, vec![], 0, 2, None, vec![Type::I64]);
    let c = func.make_inst(Opcode::Iconst, vec![], 0, 3, None, vec![Type::I64]);
    let d = func.make_inst(Opcode::Iconst, vec![], 0, 4, None, vec![Type::I64]);
    func.append_inst(a, block);
    func.append_inst(c, block);
    func.insert_inst_before(b, c);
    func.insert_inst_before(d, a);
    assert_eq!(func.block_insts(block), &vec![d, a, b, c]);
    assert_eq!(func.inst_position(b), 2);
    assert_eq!(func.first_inst(block), Some(d));
    for inst in [a, b, c, d] {
        assert_eq!(func.inst_block(inst), Some(block));
    }
}

#[test]
fn arguments_bounds_and_marks_change_in_place() {
    let mut func = Function::new();
    let block = func.create_block();
    let p = func.append_block_param(block, Type::I64);
    let q = func.append_block_param(block, Type::I64);
    let add = func.make_inst(Opcode::Iadd, vec![p, p], 2, 0, None, vec![Type::I64]);
    func.append_inst(add, block);
    func.replace_arg(add, 1, q);
    assert_eq!(func.inst_args(add), &vec![p, q]);
    let bounds = Bounds { lower: p, upper: q, directly_annotated: false };
    func.set_bounds(q, Some(bounds));
    assert_eq!(func.bounds(q), Some(bounds));
    assert_eq!(func.bounds(p), None);
    func.set_bounds(q, None);
    assert_eq!(func.bounds(q), None);
    func.set_pre_lfence(add);
    assert!(func.pre_lfence(add) && !func.post_lfence(add));
    func.set_post_lfence(add);
    assert!(func.pre_lfence(add) && func.post_lfence(add));
}

#[test]
fn control_flow_graph_keeps_edges_in_order() {
    let mut cfg = ControlFlowGraph::with_blocks(3);
    assert_eq!(cfg.num_blocks(), 3);
    cfg.add_edge(Block(0), Inst(4), Block(2));
    cfg.add_edge(Block(1), Inst(9), Block(2));
    cfg.add_edge(Block(2), Inst(11), Block(0));
    assert_eq!(
        cfg.preds(Block(2)),
        &vec![BlockPredecessor { block: Block(0), inst: Inst(4) }, BlockPredecessor { block: Block(1), inst: Inst(9) }]
    );
    assert_eq!(cfg.preds(Block(0)), &vec![BlockPredecessor { block: Block(2), inst: Inst(11) }]);
    assert!(cfg.preds(Block(1)).is_empty());
}
