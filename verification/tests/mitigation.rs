use blade::error::BladeError;
use blade::fence::{insert_fence_after, insert_fence_at_beginning_of_block, insert_fence_before};
use blade::ir::{Block, Bounds, ControlFlowGraph, Function, Inst, IntCC, Opcode, Type, Value, ValueDef};
use blade::network::BladeNode;
use blade::pass::do_blade;
use blade::settings::Blade;
use blade::slh::{SLHContext, _do_slh_on, ALLOW_FAKE_SLH_BOUNDS, FAKE_SLH_ARRAY_LENGTH_BYTES};

fn inst_of(func: &mut Function, block: Block, op: Opcode, args: Vec<Value>, fixed: usize, tys: Vec<Type>) -> Inst {
    let inst = func.make_inst(op, args, fixed, 0, None, tys);
    func.append_inst(inst, block);
    inst
}

fn marks(func: &Function) -> (Vec<usize>, Vec<usize>) {
    let mut pre = Vec::new();
    let mut post = Vec::new();
    for i in 0..func.num_insts() {
        if func.pre_lfence(Inst(i)) {
            pre.push(i);
        }
        if func.post_lfence(Inst(i)) {
            post.push(i);
        }
    }
    (pre, post)
}

/// `a = iconst; call f(a); x = load p; y = iadd x, a; brnz y; z = iadd y, y;
/// return z` in one block with the parameter `p`.
fn straight() -> (Function, Vec<Inst>, Vec<Value>) {
    let mut func = Function::new();
    let block = func.create_block();
    let p = func.append_block_param(block, Type::I64);
    let konst = inst_of(&mut func, block, Opcode::Iconst, vec![], 0, vec![Type::I64]);
    let a = func.inst_results(konst)[0];
    let call = inst_of(&mut func, block, Opcode::Call, vec![a], 0, vec![]);
    let load = inst_of(&mut func, block, Opcode::Load, vec![p], 1, vec![Type::I32]);
    let x = func.inst_results(load)[0];
    let add = inst_of(&mut func, block, Opcode::Iadd, vec![x, a], 2, vec![Type::I64]);
    let y = func.inst_results(add)[0];
    let branch = inst_of(&mut func, block, Opcode::Brnz, vec![y], 1, vec![]);
    let add2 = inst_of(&mut func, block, Opcode::Iadd, vec![y, y], 2, vec![Type::I64]);
    let z = func.inst_results(add2)[0];
    let ret = inst_of(&mut func, block, Opcode::Return, vec![z], 1, vec![]);
    (func, vec![konst, call, load, add, branch, add2, ret], vec![p, a, x, y, z])
}

#[test]
fn precise_fence_before_and_after_a_value() {
    let (mut func, insts, values) = straight();
    assert_eq!(insert_fence_before(&mut func, BladeNode::ValueDef(values[3]), Blade::Lfence), Ok(()));
    assert_eq!(marks(&func), (vec![insts[3].0], vec![]));
    assert_eq!(insert_fence_after(&mut func, BladeNode::ValueDef(values[2]), Blade::Lfence), Ok(()));
    assert_eq!(marks(&func), (vec![insts[3].0], vec![insts[2].0]));
    // asking again changes nothing
    assert_eq!(insert_fence_after(&mut func, BladeNode::ValueDef(values[2]), Blade::Lfence), Ok(()));
    assert_eq!(marks(&func), (vec![insts[3].0], vec![insts[2].0]));
}

#[test]
fn precise_fence_before_a_sink() {
    let (mut func, insts, _) = straight();
    assert_eq!(insert_fence_before(&mut func, BladeNode::Sink(insts[4]), Blade::Lfence), Ok(()));
    assert_eq!(marks(&func), (vec![insts[4].0], vec![]));
}

#[test]
fn fence_at_a_block_parameter_goes_to_the_block_start() {
    for setting in [Blade::Lfence, Blade::LfencePerBlock] {
        let (mut func, insts, values) = straight();
        assert_eq!(insert_fence_before(&mut func, BladeNode::ValueDef(values[0]), setting), Ok(()));
        assert_eq!(marks(&func), (vec![insts[0].0], vec![]));
        let (mut func, insts, values) = straight();
        assert_eq!(insert_fence_after(&mut func, BladeNode::ValueDef(values[0]), setting), Ok(()));
        assert_eq!(marks(&func), (vec![insts[0].0], vec![]));
    }
}

#[test]
fn fence_at_a_parameter_of_an_empty_block_is_refused() {
    let mut func = Function::new();
    let block = func.create_block();
    let p = func.append_block_param(block, Type::I64);
    assert_eq!(
        insert_fence_before(&mut func, BladeNode::ValueDef(p), Blade::Lfence),
        Err(BladeError::EmptyBlock)
    );
    assert_eq!(
        insert_fence_after(&mut func, BladeNode::ValueDef(p), Blade::LfencePerBlock),
        Err(BladeError::EmptyBlock)
    );
}

#[test]
fn fence_after_a_sink_is_refused() {
    let (mut func, insts, _) = straight();
    for setting in [Blade::Lfence, Blade::LfencePerBlock, Blade::Slh, Blade::Off] {
        assert_eq!(
            insert_fence_after(&mut func, BladeNode::Sink(insts[4]), setting),
            Err(BladeError::FenceAfterSink)
        );
    }
    assert_eq!(marks(&func), (vec![], vec![]));
}

#[test]
fn fence_under_a_setting_without_fences_is_refused() {
    let (mut func, insts, values) = straight();
    for setting in [Blade::Slh, Blade::Off] {
        assert_eq!(
            insert_fence_before(&mut func, BladeNode::ValueDef(values[2]), setting),
            Err(BladeError::UnexpectedSetting)
        );
        assert_eq!(
            insert_fence_after(&mut func, BladeNode::ValueDef(values[2]), setting),
            Err(BladeError::UnexpectedSetting)
        );
        assert_eq!(
            insert_fence_before(&mut func, BladeNode::Sink(insts[4]), setting),
            Err(BladeError::UnexpectedSetting)
        );
    }
    assert_eq!(marks(&func), (vec![], vec![]));
}

#[test]
fn per_block_fence_goes_after_the_last_call_or_branch() {
    let (mut func, insts, _) = straight();
    // the add: the call is the last boundary before it
    assert_eq!(insert_fence_at_beginning_of_block(&mut func, insts[3]), Ok(()));
    assert_eq!(marks(&func), (vec![], vec![insts[1].0]));
    // the load right after the call
    let (mut func, insts, _) = straight();
    assert_eq!(insert_fence_at_beginning_of_block(&mut func, insts[2]), Ok(()));
    assert_eq!(marks(&func), (vec![], vec![insts[1].0]));
    // the return: the branch is the last boundary before it
    let (mut func, insts, _) = straight();
    assert_eq!(insert_fence_at_beginning_of_block(&mut func, insts[6]), Ok(()));
    assert_eq!(marks(&func), (vec![], vec![insts[4].0]));
    // the branch itself does not count: the call is before it
    let (mut func, insts, _) = straight();
    assert_eq!(insert_fence_at_beginning_of_block(&mut func, insts[4]), Ok(()));
    assert_eq!(marks(&func), (vec![], vec![insts[1].0]));
}

#[test]
fn per_block_fence_goes_to_the_block_start_without_a_boundary() {
    let (mut func, insts, _) = straight();
    // the call: only the constant stands before it
    assert_eq!(insert_fence_at_beginning_of_block(&mut func, insts[1]), Ok(()));
    assert_eq!(marks(&func), (vec![insts[0].0], vec![]));
    // the first instruction
    let (mut func, insts, _) = straight();
    assert_eq!(insert_fence_at_beginning_of_block(&mut func, insts[0]), Ok(()));
    assert_eq!(marks(&func), (vec![insts[0].0], vec![]));
}

#[test]
fn per_block_fence_through_the_node() {
    let (mut func, insts, values) = straight();
    assert_eq!(insert_fence_before(&mut func, BladeNode::ValueDef(values[4]), Blade::LfencePerBlock), Ok(()));
    assert_eq!(marks(&func), (vec![], vec![insts[4].0]));
    let (mut func, insts, values) = straight();
    assert_eq!(insert_fence_after(&mut func, BladeNode::ValueDef(values[2]), Blade::LfencePerBlock), Ok(()));
    assert_eq!(marks(&func), (vec![], vec![insts[1].0]));
    let (mut func, insts, _) = straight();
    assert_eq!(insert_fence_before(&mut func, BladeNode::Sink(insts[1]), Blade::LfencePerBlock), Ok(()));
    assert_eq!(marks(&func), (vec![insts[0].0], vec![]));
}

#[test]
fn per_block_fence_at_an_instruction_outside_the_layout_is_refused() {
    let mut func = Function::new();
    let block = func.create_block();
    let p = func.append_block_param(block, Type::I64);
    let free = func.make_inst(Opcode::Load, vec![p], 1, 0, None, vec![Type::I64]);
    let v = func.inst_results(free)[0];
    assert_eq!(insert_fence_at_beginning_of_block(&mut func, free), Err(BladeError::InstNotInLayout));
    assert_eq!(
        insert_fence_before(&mut func, BladeNode::ValueDef(v), Blade::LfencePerBlock),
        Err(BladeError::InstNotInLayout)
    );
    // the precise fence is a mark on the instruction, wherever it is
    assert_eq!(insert_fence_before(&mut func, BladeNode::ValueDef(v), Blade::Lfence), Ok(()));
    assert_eq!(marks(&func), (vec![free.0], vec![]));
}

fn definition(func: &Function, v: Value) -> Inst {
    match func.value_def(v) {
        ValueDef::Result(inst, _) => inst,
        ValueDef::Param(..) => panic!("a parameter"),
    }
}

#[test]
fn masking_against_known_bounds() {
    let (mut func, insts, values) = straight();
    let (p, a, x) = (values[0], values[1], values[2]);
    // bounds from `a` to `p`, for the sake of two different values
    func.set_bounds(p, Some(Bounds { lower: a, upper: p, directly_annotated: true }));
    let base = func.num_values();
    assert_eq!(_do_slh_on(&mut func, BladeNode::ValueDef(x), false), Ok(()));
    let new: Vec<Inst> = (7..16).map(Inst).collect();
    let ops: Vec<Opcode> = new.iter().map(|&i| func.opcode(i)).collect();
    assert_eq!(
        ops,
        vec![
            Opcode::Iconst,
            Opcode::Iconst,
            Opcode::IntCompare,
            Opcode::Selectif,
            Opcode::Iconst,
            Opcode::Isub,
            Opcode::IntCompare,
            Opcode::Selectif,
            Opcode::Band,
        ]
    );
    let v = |k: usize| Value(base + k);
    assert_eq!(func.inst_imm(new[0]), 0);
    assert_eq!(func.inst_imm(new[1]), -1);
    assert_eq!(func.inst_args(new[2]), &vec![p, a]);
    assert_eq!(func.inst_args(new[3]), &vec![v(2), v(1), v(0)]);
    assert_eq!(func.inst_cond(new[3]), Some(IntCC::UnsignedGreaterThanOrEqual));
    // the load yields an `I32`: four bytes
    assert_eq!(func.inst_imm(new[4]), 4);
    assert_eq!(func.inst_args(new[5]), &vec![p, v(4)]);
    assert_eq!(func.inst_args(new[6]), &vec![p, v(5)]);
    assert_eq!(func.inst_args(new[7]), &vec![v(6), v(3), v(0)]);
    assert_eq!(func.inst_cond(new[7]), Some(IntCC::UnsignedLessThanOrEqual));
    assert_eq!(func.inst_args(new[8]), &vec![p, v(7)]);
    for (k, &i) in new.iter().enumerate() {
        assert_eq!(func.inst_results(i), &vec![v(k)]);
        assert_eq!(func.num_fixed_args(i), func.inst_args(i).len());
        let ty = if func.opcode(i) == Opcode::IntCompare { Type::IFlags } else { Type::I64 };
        assert_eq!(func.value_type(v(k)), ty);
        assert_eq!(definition(&func, v(k)), i);
    }
    assert_eq!(func.inst_args(insts[2]), &vec![v(8)]);
    let order: Vec<usize> = func.block_insts(Block(0)).iter().map(|i| i.0).collect();
    assert_eq!(order, vec![0, 1, 7, 8, 9, 10, 11, 12, 13, 14, 15, 2, 3, 4, 5, 6]);
    assert_eq!(marks(&func), (vec![], vec![]));
}

#[test]
fn masking_against_made_up_bounds() {
    assert!(ALLOW_FAKE_SLH_BOUNDS);
    assert_eq!(FAKE_SLH_ARRAY_LENGTH_BYTES, 2345);
    let (mut func, insts, values) = straight();
    let (p, x) = (values[0], values[2]);
    let base = func.num_values();
    assert_eq!(_do_slh_on(&mut func, BladeNode::ValueDef(x), true), Ok(()));
    assert_eq!(func.num_insts(), 7 + 10);
    // the upper bound comes first: the pointer plus the assumed size
    let upper = Inst(7);
    assert_eq!(func.opcode(upper), Opcode::IaddImm);
    assert_eq!(func.inst_args(upper), &vec![p]);
    assert_eq!(func.inst_imm(upper), 2345);
    assert_eq!(func.inst_results(upper), &vec![Value(base)]);
    // the lower bound is the pointer itself
    assert_eq!(func.inst_args(Inst(10)), &vec![p, p]);
    assert_eq!(func.inst_args(Inst(13)), &vec![Value(base), Value(base + 5)]);
    assert_eq!(func.opcode(Inst(16)), Opcode::Band);
    assert_eq!(func.inst_args(insts[2]), &vec![Value(base + 9)]);
    let order: Vec<usize> = func.block_insts(Block(0)).iter().map(|i| i.0).collect();
    assert_eq!(order, vec![0, 1, 7, 8, 9, 10, 11, 12, 13, 14, 15, 16, 2, 3, 4, 5, 6]);
}

#[test]
fn masking_picks_the_argument_with_bounds() {
    let mut func = Function::new();
    let block = func.create_block();
    let offset = func.append_block_param(block, Type::I32);
    let base_ptr = func.append_block_param(block, Type::I64);
    let lower = func.append_block_param(block, Type::I64);
    let upper = func.append_block_param(block, Type::I64);
    let load = inst_of(&mut func, block, Opcode::Load, vec![offset, base_ptr], 2, vec![Type::I8]);
    let x = func.inst_results(load)[0];
    func.set_bounds(base_ptr, Some(Bounds { lower, upper, directly_annotated: true }));
    let first_new = func.num_values();
    assert_eq!(_do_slh_on(&mut func, BladeNode::ValueDef(x), true), Ok(()));
    assert_eq!(func.num_insts(), 1 + 9);
    assert_eq!(func.inst_args(load), &vec![offset, Value(first_new + 8)]);
    assert_eq!(func.inst_args(Inst(3)), &vec![base_ptr, lower]);
    assert_eq!(func.inst_imm(Inst(5)), 1);
    assert_eq!(func.inst_args(Inst(6)), &vec![upper, Value(first_new + 4)]);
}

#[test]
fn masking_refusals() {
    let (mut func, insts, values) = straight();
    let (p, a, x, y) = (values[0], values[1], values[2], values[3]);
    assert_eq!(_do_slh_on(&mut func, BladeNode::Sink(insts[2]), true), Err(BladeError::SlhOnSink));
    assert_eq!(_do_slh_on(&mut func, BladeNode::ValueDef(p), true), Err(BladeError::SlhOnBlockParam));
    assert_eq!(_do_slh_on(&mut func, BladeNode::ValueDef(y), true), Err(BladeError::SlhOnNonLoad));
    assert_eq!(_do_slh_on(&mut func, BladeNode::ValueDef(a), true), Err(BladeError::SlhOnNonLoad));
    assert_eq!(_do_slh_on(&mut func, BladeNode::ValueDef(x), false), Err(BladeError::SlhNoPointerArg));
    // nothing was touched
    assert_eq!(func.num_insts(), 7);
    assert_eq!(func.inst_args(insts[2]), &vec![p]);
}

#[test]
fn masking_a_load_with_two_pointers_is_refused() {
    let mut func = Function::new();
    let block = func.create_block();
    let p = func.append_block_param(block, Type::I64);
    let q = func.append_block_param(block, Type::I64);
    let load = inst_of(&mut func, block, Opcode::Load, vec![p, q], 2, vec![Type::I64]);
    let x = func.inst_results(load)[0];
    func.set_bounds(p, Some(Bounds { lower: p, upper: q, directly_annotated: true }));
    func.set_bounds(q, Some(Bounds { lower: p, upper: q, directly_annotated: false }));
    for allow in [true, false] {
        assert_eq!(
            _do_slh_on(&mut func, BladeNode::ValueDef(x), allow),
            Err(BladeError::SlhMultiplePointerArgs)
        );
    }
    assert_eq!(func.num_insts(), 1);
}

#[test]
fn masking_a_load_without_arguments_is_refused() {
    let mut func = Function::new();
    let block = func.create_block();
    let load = inst_of(&mut func, block, Opcode::Load, vec![], 0, vec![Type::I64]);
    let x = func.inst_results(load)[0];
    assert_eq!(_do_slh_on(&mut func, BladeNode::ValueDef(x), true), Err(BladeError::SlhNoPointerArg));
}

#[test]
fn masking_a_load_outside_the_layout_is_refused() {
    let mut func = Function::new();
    let block = func.create_block();
    let p = func.append_block_param(block, Type::I64);
    let free = func.make_inst(Opcode::Load, vec![p], 1, 0, None, vec![Type::I64]);
    let x = func.inst_results(free)[0];
    assert_eq!(_do_slh_on(&mut func, BladeNode::ValueDef(x), true), Err(BladeError::InstNotInLayout));
}

#[test]
fn ledger_hardens_each_load_once() {
    let (mut func, insts, values) = straight();
    let x = values[2];
    let mut ctx = SLHContext::new();
    assert!(!ctx.is_done(BladeNode::ValueDef(x)));
    assert_eq!(ctx.do_slh_on(&mut func, BladeNode::ValueDef(x)), Ok(()));
    assert!(ctx.is_done(BladeNode::ValueDef(x)));
    assert_eq!(func.num_insts(), 7 + 10);
    let masked = func.inst_args(insts[2]).clone();
    // asked again, by whatever way the cut leads back to the load
    assert_eq!(ctx.do_slh_on(&mut func, BladeNode::ValueDef(x)), Ok(()));
    assert_eq!(func.num_insts(), 7 + 10);
    assert_eq!(func.inst_args(insts[2]), &masked);
    // the mask is computed from the pointer, not from a mask
    assert_eq!(func.inst_args(definition(&func, masked[0]))[0], values[0]);
}

#[test]
fn ledger_without_made_up_bounds() {
    let (mut func, _, values) = straight();
    let mut ctx = SLHContext::with_fake_bounds(false);
    assert_eq!(ctx.do_slh_on(&mut func, BladeNode::ValueDef(values[2])), Err(BladeError::SlhNoPointerArg));
    assert_eq!(func.num_insts(), 7);
}

/// Two uses of one loaded value as an address: whichever edges are cut,
/// both lead back to the one load.
fn two_sinks_one_source() -> (Function, ControlFlowGraph, Inst, Value) {
    let mut func = Function::new();
    let block = func.create_block();
    let p = func.append_block_param(block, Type::I64);
    let load = inst_of(&mut func, block, Opcode::Load, vec![p], 1, vec![Type::I64]);
    let x = func.inst_results(load)[0];
    let a = inst_of(&mut func, block, Opcode::IaddImm, vec![x], 1, vec![Type::I64]);
    let b = inst_of(&mut func, block, Opcode::IaddImm, vec![x], 1, vec![Type::I64]);
    let xa = func.inst_results(a)[0];
    let xb = func.inst_results(b)[0];
    inst_of(&mut func, block, Opcode::Store, vec![p, xa], 2, vec![]);
    inst_of(&mut func, block, Opcode::Store, vec![p, xb], 2, vec![]);
    (func, ControlFlowGraph::with_blocks(1), load, p)
}

#[test]
fn pass_with_masking_hardens_the_one_load_once() {
    let (mut func, cfg, load, p) = two_sinks_one_source();
    let before = func.num_insts();
    assert_eq!(do_blade(&mut func, &cfg, Blade::Slh), Ok(()));
    assert_eq!(func.num_insts(), before + 10);
    let masked = func.inst_args(load)[0];
    assert_eq!(func.opcode(definition(&func, masked)), Opcode::Band);
    assert_eq!(func.inst_args(definition(&func, masked))[0], p);
    assert_eq!(marks(&func), (vec![], vec![]));
}

#[test]
fn pass_with_fences_cuts_at_the_load() {
    let (mut func, cfg, load, _) = two_sinks_one_source();
    assert_eq!(do_blade(&mut func, &cfg, Blade::Lfence), Ok(()));
    // one fence after the load is cheaper than one before each store
    assert_eq!(marks(&func), (vec![], vec![load.0]));
}

#[test]
fn pass_twice_on_equal_functions_marks_the_same() {
    for setting in [Blade::Lfence, Blade::LfencePerBlock, Blade::Slh] {
        let (mut first, cfg, ..) = two_sinks_one_source();
        assert_eq!(do_blade(&mut first, &cfg, setting), Ok(()));
        let (mut second, cfg, ..) = two_sinks_one_source();
        assert_eq!(do_blade(&mut second, &cfg, setting), Ok(()));
        assert_eq!(marks(&first), marks(&second));
        assert_eq!(first.num_insts(), second.num_insts());
        for i in 0..first.num_insts() {
            assert_eq!(first.opcode(Inst(i)), second.opcode(Inst(i)));
            assert_eq!(first.inst_args(Inst(i)), second.inst_args(Inst(i)));
        }
    }
}

#[test]
fn pass_on_a_function_without_sources_changes_nothing() {
    for setting in [Blade::Lfence, Blade::LfencePerBlock, Blade::Slh, Blade::Off] {
        let mut func = Function::new();
        let block = func.create_block();
        let p = func.append_block_param(block, Type::I64);
        let add = inst_of(&mut func, block, Opcode::Iadd, vec![p, p], 2, vec![Type::I64]);
        let s = func.inst_results(add)[0];
        inst_of(&mut func, block, Opcode::Store, vec![s, p], 2, vec![]);
        let cfg = ControlFlowGraph::with_blocks(1);
        assert_eq!(do_blade(&mut func, &cfg, setting), Ok(()));
        assert_eq!(marks(&func), (vec![], vec![]));
        assert_eq!(func.num_insts(), 2);
    }
}

#[test]
fn pass_fails_on_a_malformed_control_flow_edge() {
    let mut func = Function::new();
    let block0 = func.create_block();
    let block1 = func.create_block();
    let p = func.append_block_param(block0, Type::I64);
    let jump = inst_of(&mut func, block0, Opcode::Jump, vec![p], 0, vec![]);
    let mut cfg = ControlFlowGraph::with_blocks(2);
    cfg.add_edge(block0, jump, block1);
    assert_eq!(do_blade(&mut func, &cfg, Blade::Lfence), Err(BladeError::ArityMismatch));
    // under `Off` the function is not even looked at
    assert_eq!(do_blade(&mut func, &cfg, Blade::Off), Ok(()));
}

#[test]
fn pass_with_masking_fails_on_a_call_as_source() {
    // `r = call f(); store v, r`: the cut is at `r`, which no load defines
    let mut func = Function::new();
    let block = func.create_block();
    let v = func.append_block_param(block, Type::I64);
    let call = inst_of(&mut func, block, Opcode::Call, vec![], 0, vec![Type::I64]);
    let r = func.inst_results(call)[0];
    inst_of(&mut func, block, Opcode::Store, vec![v, r], 2, vec![]);
    let cfg = ControlFlowGraph::with_blocks(1);
    assert_eq!(do_blade(&mut func, &cfg, Blade::Slh), Err(BladeError::SlhOnNonLoad));
}
