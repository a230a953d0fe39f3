//! Where fences go: right at a cut point, or moved up to the start of the
//! basic block that holds it.

use crate::error::BladeError;
use crate::ir::{Block, Function, FunctionView, Inst, ValueDef};
use crate::network::BladeNode;
use crate::settings::Blade;
use vstd::prelude::*;

verus! {

/// The node names a value or an instruction of the function.
pub open spec fn bladenode_fits(f: FunctionView, bnode: BladeNode) -> bool {
    match bnode {
        BladeNode::ValueDef(v) => f.has_value(v),
        BladeNode::Sink(inst) => f.has_inst(inst),
    }
}

/// The position of the last instruction before position `p` of `list` that
/// ends a basic block, if there is one.
pub open spec fn last_boundary(f: FunctionView, list: Seq<Inst>, p: int) -> Option<int>
    decreases p,
{
    if p <= 0 {
        None
    } else if f.insts[list[p - 1].0 as int].opcode.spec_ends_basic_block() {
        Some(p - 1)
    } else {
        last_boundary(f, list, p - 1)
    }
}

/// The function with a fence at the start of the basic block that holds
/// `inst`: after the last call or branch before `inst` in its block, or
/// before the block's first instruction if there is none.
pub open spec fn fence_basic_block(f: FunctionView, inst: Inst) -> Result<FunctionView, BladeError> {
    match f.insts[inst.0 as int].block {
        None => Err(BladeError::InstNotInLayout),
        Some(block) => {
            let list = f.blocks[block.0 as int].insts;
            match last_boundary(f, list, f.position(inst)) {
                Some(q) => Ok(f.fenced_after(list[q])),
                None => Ok(f.fenced_before(list[0])),
            }
        },
    }
}

/// The function with a fence before the first instruction of `block`.
pub open spec fn fence_block_start(f: FunctionView, block: Block) -> Result<FunctionView, BladeError> {
    let list = f.blocks[block.0 as int].insts;
    if list.len() == 0 {
        Err(BladeError::EmptyBlock)
    } else {
        Ok(f.fenced_before(list[0]))
    }
}

/// The function with a fence at `inst`: right before or right after it
/// under `Lfence`, at the start of its basic block under `LfencePerBlock`.
pub open spec fn fence_inst(f: FunctionView, inst: Inst, setting: Blade, before: bool) -> Result<
    FunctionView,
    BladeError,
> {
    match setting {
        Blade::Lfence => Ok(if before { f.fenced_before(inst) } else { f.fenced_after(inst) }),
        Blade::LfencePerBlock => fence_basic_block(f, inst),
        _ => Err(BladeError::UnexpectedSetting),
    }
}

/// The function with a fence at the definition of a value: at the
/// instruction that defines it, or at the start of the block whose
/// parameter it is.
pub open spec fn fence_def(f: FunctionView, def: ValueDef, setting: Blade, before: bool) -> Result<
    FunctionView,
    BladeError,
> {
    match def {
        ValueDef::Result(inst, _) => fence_inst(f, inst, setting, before),
        ValueDef::Param(block, _) => fence_block_start(f, block),
    }
}

/// The function with a fence before a node of the network: before the
/// definition of a value, or before a sink instruction.
pub open spec fn fence_before(f: FunctionView, bnode: BladeNode, setting: Blade) -> Result<
    FunctionView,
    BladeError,
> {
    match bnode {
        BladeNode::ValueDef(v) => fence_def(f, f.values[v.0 as int].def, setting, true),
        BladeNode::Sink(inst) => fence_inst(f, inst, setting, true),
    }
}

/// The function with a fence after a node of the network: after the
/// definition of a value. A sink defines nothing that a fence could follow.
pub open spec fn fence_after(f: FunctionView, bnode: BladeNode, setting: Blade) -> Result<
    FunctionView,
    BladeError,
> {
    match bnode {
        BladeNode::ValueDef(v) => fence_def(f, f.values[v.0 as int].def, setting, false),
        BladeNode::Sink(_) => Err(BladeError::FenceAfterSink),
    }
}

/// Marks a fence at the start of the basic block that holds `inst`. A
/// basic block ends at every call and branch, unlike the function's own
/// blocks, which hold calls and conditional branches in their middle.
pub fn insert_fence_at_beginning_of_block(func: &mut Function, inst: Inst) -> (r: Result<(), BladeError>)
    requires
        old(func).wf(),
        old(func)@.has_inst(inst),
    ensures
        final(func).wf(),
        final(func)@.values.len() == old(func)@.values.len(),
        final(func)@.insts.len() == old(func)@.insts.len(),
        match r {
            Ok(()) => fence_basic_block(old(func)@, inst) == Ok::<FunctionView, BladeError>(final(func)@),
            Err(e) => fence_basic_block(old(func)@, inst) == Err::<FunctionView, BladeError>(e)
                && final(func)@ == old(func)@,
        },
{
    let ghost f = func@;
    let block = match func.inst_block(inst) {
        Some(block) => block,
        None => {
            return Err(BladeError::InstNotInLayout);
        },
    };
    let at = func.inst_position(inst);
    let insts = func.block_insts(block);
    let mut cur: usize = at;
    while cur > 0
        invariant
            func.wf(),
            f == func@,
            f == old(func)@,
            f.has_block(block),
            f.has_inst(inst),
            f.insts[inst.0 as int].block == Some(block),
            at == f.position(inst),
            insts@ == f.blocks[block.0 as int].insts,
            cur <= at < insts@.len(),
            last_boundary(f, insts@, at as int) == last_boundary(f, insts@, cur as int),
        decreases cur,
    {
        let prev = insts[cur - 1];
        assert(f.has_inst(f.blocks[block.0 as int].insts[cur - 1]));
        if func.opcode(prev).ends_basic_block() {
            // the call or branch before: the fence goes after it
            func.set_post_lfence(prev);
            return Ok(());
        }
        cur = cur - 1;
    }
    // no call or branch before: the fence goes to the start of the block
    let first = insts[0];
    assert(f.has_inst(f.blocks[block.0 as int].insts[0]));
    func.set_pre_lfence(first);
    Ok(())
}

/// Marks a fence before the first instruction of `block`.
fn insert_fence_at_block_start(func: &mut Function, block: Block) -> (r: Result<(), BladeError>)
    requires
        old(func).wf(),
        old(func)@.has_block(block),
    ensures
        final(func).wf(),
        final(func)@.values.len() == old(func)@.values.len(),
        final(func)@.insts.len() == old(func)@.insts.len(),
        match r {
            Ok(()) => fence_block_start(old(func)@, block) == Ok::<FunctionView, BladeError>(final(func)@),
            Err(e) => fence_block_start(old(func)@, block) == Err::<FunctionView, BladeError>(e)
                && final(func)@ == old(func)@,
        },
{
    match func.first_inst(block) {
        Some(first_inst) => {
            assert(func@.has_inst(func@.blocks[block.0 as int].insts[0]));
            func.set_pre_lfence(first_inst);
            Ok(())
        },
        None => Err(BladeError::EmptyBlock),
    }
}

/// Marks a fence at `inst` as the setting asks: right before or after it,
/// or at the start of its basic block.
fn insert_fence_at_inst(func: &mut Function, inst: Inst, blade_setting: Blade, before: bool) -> (r: Result<
    (),
    BladeError,
>)
    requires
        old(func).wf(),
        old(func)@.has_inst(inst),
    ensures
        final(func).wf(),
        final(func)@.values.len() == old(func)@.values.len(),
        final(func)@.insts.len() == old(func)@.insts.len(),
        match r {
            Ok(()) => fence_inst(old(func)@, inst, blade_setting, before) == Ok::<FunctionView, BladeError>(
                final(func)@,
            ),
            Err(e) => fence_inst(old(func)@, inst, blade_setting, before) == Err::<
                FunctionView,
                BladeError,
            >(e) && final(func)@ == old(func)@,
        },
{
    match blade_setting {
        Blade::Lfence => {
            if before {
                func.set_pre_lfence(inst);
            } else {
                func.set_post_lfence(inst);
            }
            Ok(())
        },
        // one fence at the start of the basic block stops what a
        // mispredicted branch lets through
        Blade::LfencePerBlock => insert_fence_at_beginning_of_block(func, inst),
        _ => Err(BladeError::UnexpectedSetting),
    }
}

/// Marks a fence before the given node: before the definition of a value,
/// or before a sink instruction.
pub fn insert_fence_before(func: &mut Function, bnode: BladeNode, blade_setting: Blade) -> (r: Result<
    (),
    BladeError,
>)
    requires
        old(func).wf(),
        bladenode_fits(old(func)@, bnode),
    ensures
        final(func).wf(),
        final(func)@.values.len() == old(func)@.values.len(),
        final(func)@.insts.len() == old(func)@.insts.len(),
        match r {
            Ok(()) => fence_before(old(func)@, bnode, blade_setting) == Ok::<FunctionView, BladeError>(
                final(func)@,
            ),
            Err(e) => fence_before(old(func)@, bnode, blade_setting) == Err::<FunctionView, BladeError>(e)
                && final(func)@ == old(func)@,
        },
{
    match bnode {
        BladeNode::ValueDef(val) => match func.value_def(val) {
            ValueDef::Result(inst, _) => insert_fence_at_inst(func, inst, blade_setting, true),
            // a parameter is cut at the start of its block
            ValueDef::Param(block, _) => insert_fence_at_block_start(func, block),
        },
        BladeNode::Sink(inst) => insert_fence_at_inst(func, inst, blade_setting, true),
    }
}

/// Marks a fence after the given node: after the definition of a value.
/// A sink defines nothing, so no fence can follow it.
pub fn insert_fence_after(func: &mut Function, bnode: BladeNode, blade_setting: Blade) -> (r: Result<
    (),
    BladeError,
>)
    requires
        old(func).wf(),
        bladenode_fits(old(func)@, bnode),
    ensures
        final(func).wf(),
        final(func)@.values.len() == old(func)@.values.len(),
        final(func)@.insts.len() == old(func)@.insts.len(),
        match r {
            Ok(()) => fence_after(old(func)@, bnode, blade_setting) == Ok::<FunctionView, BladeError>(
                final(func)@,
            ),
            Err(e) => fence_after(old(func)@, bnode, blade_setting) == Err::<FunctionView, BladeError>(e)
                && final(func)@ == old(func)@,
        },
{
    match bnode {
        BladeNode::ValueDef(val) => match func.value_def(val) {
            ValueDef::Result(inst, _) => insert_fence_at_inst(func, inst, blade_setting, false),
            // a parameter has no single point after it: the fence goes to
            // the start of its block
            ValueDef::Param(block, _) => insert_fence_at_block_start(func, block),
        },
        BladeNode::Sink(_) => Err(BladeError::FenceAfterSink),
    }
}

} // verus!
