//! Pointer masking: a load that is a speculative source gets its pointer
//! forced to zero whenever the pointer lies outside its bounds, by a mask
//! that is computed without a branch.

use crate::error::BladeError;
use crate::ir::{Bounds, Function, FunctionView, Inst, IntCC, Opcode, Type, Value, ValueDef};
use crate::fence::bladenode_fits;
use crate::network::BladeNode;
use vstd::prelude::*;

verus! {

/// Whether a load without any pointer bounds is masked against made-up
/// bounds instead of being refused.
pub const ALLOW_FAKE_SLH_BOUNDS: bool = true;

/// The object size in bytes that made-up bounds assume.
pub const FAKE_SLH_ARRAY_LENGTH_BYTES: u32 = 2345;

/// The function with one more instruction with the single result type
/// `ty`, placed right before `before`. All its arguments are fixed.
pub open spec fn ins_before(
    f: FunctionView,
    before: Inst,
    opcode: Opcode,
    args: Seq<Value>,
    imm: i64,
    cond: Option<IntCC>,
    ty: Type,
) -> FunctionView {
    f.with_inst(opcode, args, args.len(), imm, cond, seq![ty]).placed_before(
        Inst(f.insts.len() as usize),
        before,
    )
}

/// The positions among the first `n` of `args` whose value has bounds, in
/// ascending order.
pub open spec fn pointer_args(f: FunctionView, args: Seq<Value>, n: int) -> Seq<int>
    decreases n,
{
    if n <= 0 {
        Seq::empty()
    } else if f.values[args[n - 1].0 as int].bounds is Some {
        pointer_args(f, args, n - 1).push(n - 1)
    } else {
        pointer_args(f, args, n - 1)
    }
}

/// The function with the pointer argument number `argnum` of the load
/// `inst` masked against `bounds`.
///
/// Nine instructions go right before the load: the two constants zero
/// and all-ones; a comparison of the pointer with the lower bound and a
/// select that keeps all-ones where the pointer is not below it; the size
/// of the loaded value `value`, taken off the upper bound; a comparison of
/// the pointer with that and a select that keeps the mask where the
/// pointer is not above it; and the conjunction of pointer and mask, which
/// the load then reads in place of the pointer.
pub open spec fn mask_pointer(f: FunctionView, inst: Inst, value: Value, argnum: int, bounds: Bounds) -> FunctionView {
    let pointer = f.insts[inst.0 as int].args[argnum];
    let pointer_ty = f.values[pointer.0 as int].ty;
    let bytes = f.values[value.0 as int].ty.spec_bytes() as i64;
    let base = f.values.len();
    let zero = Value(base as usize);
    let all_ones = Value((base + 1) as usize);
    let flags = Value((base + 2) as usize);
    let mask = Value((base + 3) as usize);
    let op_size = Value((base + 4) as usize);
    let adjusted_upper = Value((base + 5) as usize);
    let flags_upper = Value((base + 6) as usize);
    let mask_both = Value((base + 7) as usize);
    let masked = Value((base + 8) as usize);
    let f1 = ins_before(f, inst, Opcode::Iconst, seq![], 0, None, pointer_ty);
    let f2 = ins_before(f1, inst, Opcode::Iconst, seq![], -1i64, None, pointer_ty);
    let f3 = ins_before(f2, inst, Opcode::IntCompare, seq![pointer, bounds.lower], 0, None, Type::IFlags);
    let f4 = ins_before(
        f3,
        inst,
        Opcode::Selectif,
        seq![flags, all_ones, zero],
        0,
        Some(IntCC::UnsignedGreaterThanOrEqual),
        pointer_ty,
    );
    let f5 = ins_before(f4, inst, Opcode::Iconst, seq![], bytes, None, pointer_ty);
    let f6 = ins_before(f5, inst, Opcode::Isub, seq![bounds.upper, op_size], 0, None, pointer_ty);
    let f7 = ins_before(f6, inst, Opcode::IntCompare, seq![pointer, adjusted_upper], 0, None, Type::IFlags);
    let f8 = ins_before(
        f7,
        inst,
        Opcode::Selectif,
        seq![flags_upper, mask, zero],
        0,
        Some(IntCC::UnsignedLessThanOrEqual),
        pointer_ty,
    );
    let f9 = ins_before(f8, inst, Opcode::Band, seq![pointer, mask_both], 0, None, pointer_ty);
    f9.with_arg(inst, argnum, masked)
}

/// The function with the load `inst`, which defines `value`, hardened.
///
/// The one argument with bounds is masked against them. Without any, and
/// where `allow_fake` permits, the first argument is masked against bounds
/// made up from itself and an assumed object size.
pub open spec fn harden_load(f: FunctionView, inst: Inst, value: Value, allow_fake: bool) -> Result<
    FunctionView,
    BladeError,
> {
    let data = f.insts[inst.0 as int];
    let pointers = pointer_args(f, data.args, data.args.len() as int);
    if !data.opcode.spec_can_load() {
        Err(BladeError::SlhOnNonLoad)
    } else if data.block is None {
        Err(BladeError::InstNotInLayout)
    } else if pointers.len() > 1 {
        Err(BladeError::SlhMultiplePointerArgs)
    } else if pointers.len() == 1 {
        let pointer = data.args[pointers[0]];
        Ok(mask_pointer(f, inst, value, pointers[0], f.values[pointer.0 as int].bounds.unwrap()))
    } else if !allow_fake || data.args.len() == 0 {
        Err(BladeError::SlhNoPointerArg)
    } else {
        let pointer = data.args[0];
        let with_upper = ins_before(
            f,
            inst,
            Opcode::IaddImm,
            seq![pointer],
            FAKE_SLH_ARRAY_LENGTH_BYTES as i64,
            None,
            f.values[pointer.0 as int].ty,
        );
        let bounds = Bounds { lower: pointer, upper: Value(f.values.len() as usize), directly_annotated: false };
        Ok(mask_pointer(with_upper, inst, value, 0, bounds))
    }
}

/// The function with the source that a node stands for hardened: the load
/// that defines the node's value.
pub open spec fn harden(f: FunctionView, bnode: BladeNode, allow_fake: bool) -> Result<FunctionView, BladeError> {
    match bnode {
        BladeNode::Sink(_) => Err(BladeError::SlhOnSink),
        BladeNode::ValueDef(value) => match f.values[value.0 as int].def {
            ValueDef::Param(_, _) => Err(BladeError::SlhOnBlockParam),
            ValueDef::Result(inst, _) => harden_load(f, inst, value, allow_fake),
        },
    }
}

/// Puts a new instruction with one result of type `ty` right before
/// `before` and returns its result.
fn ins(
    func: &mut Function,
    before: Inst,
    opcode: Opcode,
    args: Vec<Value>,
    imm: i64,
    cond: Option<IntCC>,
    ty: Type,
) -> (v: Value)
    requires
        old(func).wf(),
        old(func)@.has_inst(before),
        old(func)@.insts[before.0 as int].block is Some,
        forall|k: int| 0 <= k < args@.len() ==> old(func)@.has_value(#[trigger] args@[k]),
    ensures
        final(func).wf(),
        final(func)@ == ins_before(old(func)@, before, opcode, args@, imm, cond, ty),
        v == Value(old(func)@.values.len() as usize),
        final(func)@.values.len() == old(func)@.values.len() + 1,
        final(func)@.insts.len() == old(func)@.insts.len() + 1,
        final(func)@.values[v.0 as int].ty == ty,
        forall|i: int|
            0 <= i < old(func)@.insts.len() ==> #[trigger] final(func)@.insts[i] == old(func)@.insts[i],
        forall|u: int|
            0 <= u < old(func)@.values.len() ==> #[trigger] final(func)@.values[u] == old(func)@.values[u],
{
    let mut tys: Vec<Type> = Vec::new();
    tys.push(ty);
    let fixed = args.len();
    assert(tys@ =~= seq![ty]);
    let inst = func.make_inst(opcode, args, fixed, imm, cond, tys);
    func.insert_inst_before(inst, before);
    let v = func.inst_results(inst)[0];
    v
}

/// Masks the pointer argument number `argnum` of the load `inst`, which
/// defines `value`, against `bounds`.
#[verifier::rlimit(50)]
fn mask_pointer_arg(func: &mut Function, inst: Inst, value: Value, argnum: usize, bounds: Bounds)
    requires
        old(func).wf(),
        old(func)@.has_inst(inst),
        old(func)@.has_value(value),
        old(func)@.insts[inst.0 as int].block is Some,
        argnum < old(func)@.insts[inst.0 as int].args.len(),
        old(func)@.has_value(bounds.lower),
        old(func)@.has_value(bounds.upper),
    ensures
        final(func).wf(),
        final(func)@ == mask_pointer(old(func)@, inst, value, argnum as int, bounds),
        final(func)@.values.len() >= old(func)@.values.len(),
        final(func)@.insts.len() >= old(func)@.insts.len(),
{
    let ghost f = func@;
    let pointer_arg = func.inst_args(inst)[argnum];
    assert(f.has_value(f.insts[inst.0 as int].args[argnum as int]));
    let pointer_ty = func.value_type(pointer_arg);
    let bytes = func.value_type(value).bytes();
    let zero = ins(func, inst, Opcode::Iconst, Vec::new(), 0, None, pointer_ty);
    let all_ones = ins(func, inst, Opcode::Iconst, Vec::new(), -1, None, pointer_ty);
    let mut args: Vec<Value> = Vec::new();
    args.push(pointer_arg);
    args.push(bounds.lower);
    assert(args@ =~= seq![pointer_arg, bounds.lower]);
    let flags = ins(func, inst, Opcode::IntCompare, args, 0, None, Type::IFlags);
    let mut args: Vec<Value> = Vec::new();
    args.push(flags);
    args.push(all_ones);
    args.push(zero);
    assert(args@ =~= seq![flags, all_ones, zero]);
    let mask = ins(
        func,
        inst,
        Opcode::Selectif,
        args,
        0,
        Some(IntCC::UnsignedGreaterThanOrEqual),
        pointer_ty,
    );
    let op_size_bytes = ins(func, inst, Opcode::Iconst, Vec::new(), bytes as i64, None, pointer_ty);
    let mut args: Vec<Value> = Vec::new();
    args.push(bounds.upper);
    args.push(op_size_bytes);
    assert(args@ =~= seq![bounds.upper, op_size_bytes]);
    let adjusted_upper_bound = ins(func, inst, Opcode::Isub, args, 0, None, pointer_ty);
    let mut args: Vec<Value> = Vec::new();
    args.push(pointer_arg);
    args.push(adjusted_upper_bound);
    assert(args@ =~= seq![pointer_arg, adjusted_upper_bound]);
    let flags = ins(func, inst, Opcode::IntCompare, args, 0, None, Type::IFlags);
    let mut args: Vec<Value> = Vec::new();
    args.push(flags);
    args.push(mask);
    args.push(zero);
    assert(args@ =~= seq![flags, mask, zero]);
    let mask = ins(func, inst, Opcode::Selectif, args, 0, Some(IntCC::UnsignedLessThanOrEqual), pointer_ty);
    let mut args: Vec<Value> = Vec::new();
    args.push(pointer_arg);
    args.push(mask);
    assert(args@ =~= seq![pointer_arg, mask]);
    let masked_pointer = ins(func, inst, Opcode::Band, args, 0, None, pointer_ty);
    // the load now reads the masked pointer in place of the pointer
    func.replace_arg(inst, argnum, masked_pointer);
}

/// Hardens the load that defines the value of `bnode`.
///
/// `allow_fake`: whether a load without pointer bounds is masked against
/// made-up bounds.
pub fn _do_slh_on(func: &mut Function, bnode: BladeNode, allow_fake: bool) -> (r: Result<(), BladeError>)
    requires
        old(func).wf(),
        bladenode_fits(old(func)@, bnode),
    ensures
        final(func).wf(),
        final(func)@.values.len() >= old(func)@.values.len(),
        final(func)@.insts.len() >= old(func)@.insts.len(),
        match r {
            Ok(()) => harden(old(func)@, bnode, allow_fake) == Ok::<FunctionView, BladeError>(final(func)@),
            Err(e) => harden(old(func)@, bnode, allow_fake) == Err::<FunctionView, BladeError>(e)
                && final(func)@ == old(func)@,
        },
{
    let ghost f = func@;
    let value = match bnode {
        BladeNode::Sink(_) => {
            return Err(BladeError::SlhOnSink);
        },
        BladeNode::ValueDef(value) => value,
    };
    // the value to protect is `value`: the load that produced it is hardened
    let inst = match func.value_def(value) {
        ValueDef::Param(_, _) => {
            return Err(BladeError::SlhOnBlockParam);
        },
        ValueDef::Result(inst, _) => inst,
    };
    if !func.opcode(inst).can_load() {
        return Err(BladeError::SlhOnNonLoad);
    }
    if func.inst_block(inst).is_none() {
        return Err(BladeError::InstNotInLayout);
    }
    // find the arguments of `inst` that are marked as pointers
    let args = func.inst_args(inst);
    let mut found: usize = 0;
    let mut first: usize = 0;
    let mut k: usize = 0;
    while k < args.len()
        invariant
            func.wf(),
            f == func@,
            f.has_inst(inst),
            args@ == f.insts[inst.0 as int].args,
            k <= args@.len(),
            found == pointer_args(f, args@, k as int).len(),
            found <= k,
            found > 0 ==> first == pointer_args(f, args@, k as int)[0] && first < k
                && f.values[args@[first as int].0 as int].bounds is Some,
        decreases args@.len() - k,
    {
        assert(f.has_value(f.insts[inst.0 as int].args[k as int]));
        if func.bounds(args[k]).is_some() {
            if found == 0 {
                first = k;
            }
            found = found + 1;
        }
        k = k + 1;
    }
    if found > 1 {
        return Err(BladeError::SlhMultiplePointerArgs);
    }
    if found == 1 {
        // all good: there is exactly one pointer argument
        let pointer_arg = args[first];
        assert(f.has_value(f.insts[inst.0 as int].args[first as int]));
        let bounds = func.bounds(pointer_arg).unwrap();
        assert(f.values[pointer_arg.0 as int].bounds == Some(bounds));
        mask_pointer_arg(func, inst, value, first, bounds);
        return Ok(());
    }
    if !allow_fake || args.len() == 0 {
        return Err(BladeError::SlhNoPointerArg);
    }
    // no bounds are known: the first argument is taken for the pointer,
    // and an object of an assumed size for what it points into
    let pointer_arg = args[0];
    assert(f.has_value(f.insts[inst.0 as int].args[0]));
    let pointer_ty = func.value_type(pointer_arg);
    let mut upper_args: Vec<Value> = Vec::new();
    upper_args.push(pointer_arg);
    assert(upper_args@ =~= seq![pointer_arg]);
    let upper = ins(
        func,
        inst,
        Opcode::IaddImm,
        upper_args,
        FAKE_SLH_ARRAY_LENGTH_BYTES as i64,
        None,
        pointer_ty,
    );
    let bounds = Bounds { lower: pointer_arg, upper, directly_annotated: false };
    mask_pointer_arg(func, inst, value, 0, bounds);
    Ok(())
}

/// The function and the ledger after hardening is asked for at `bnode`:
/// a node that the ledger `done` holds already is left alone.
pub open spec fn slh_on(f: FunctionView, done: Set<BladeNode>, bnode: BladeNode, allow_fake: bool) -> Result<
    (FunctionView, Set<BladeNode>),
    BladeError,
> {
    if done.contains(bnode) {
        Ok((f, done))
    } else {
        match harden(f, bnode, allow_fake) {
            Ok(hardened) => Ok((hardened, done.insert(bnode))),
            Err(e) => Err(e),
        }
    }
}

/// Asking twice comes to asking once: once a node has been hardened,
/// asking for it again changes neither the function nor the ledger.
pub proof fn lemma_slh_on_idempotent(f: FunctionView, done: Set<BladeNode>, bnode: BladeNode, allow_fake: bool)
    requires
        slh_on(f, done, bnode, allow_fake) is Ok,
    ensures
        slh_on(
            slh_on(f, done, bnode, allow_fake).unwrap().0,
            slh_on(f, done, bnode, allow_fake).unwrap().1,
            bnode,
            allow_fake,
        ) == slh_on(f, done, bnode, allow_fake),
{
}

/// The ledger of pointer masking: which nodes have been hardened.
pub struct SLHContext {
    /// The nodes that have been hardened already.
    bladenodes_done: Vec<BladeNode>,
    /// Whether loads without pointer bounds get made-up ones.
    allow_fake_bounds: bool,
}

impl SLHContext {
    /// The nodes that have been hardened.
    pub closed spec fn view(&self) -> Set<BladeNode> {
        Set::new(|bnode: BladeNode| self.bladenodes_done@.contains(bnode))
    }

    /// Whether loads without pointer bounds get made-up ones.
    pub closed spec fn allows_fake(&self) -> bool {
        self.allow_fake_bounds
    }

    /// A blank ledger.
    pub fn new() -> (ctx: SLHContext)
        ensures
            ctx@ == Set::<BladeNode>::empty(),
            ctx.allows_fake() == ALLOW_FAKE_SLH_BOUNDS,
    {
        let ctx = SLHContext { bladenodes_done: Vec::new(), allow_fake_bounds: ALLOW_FAKE_SLH_BOUNDS };
        assert(ctx@ =~= Set::<BladeNode>::empty());
        ctx
    }

    /// A blank ledger that allows or refuses made-up bounds.
    pub fn with_fake_bounds(allow: bool) -> (ctx: SLHContext)
        ensures
            ctx@ == Set::<BladeNode>::empty(),
            ctx.allows_fake() == allow,
    {
        let ctx = SLHContext { bladenodes_done: Vec::new(), allow_fake_bounds: allow };
        assert(ctx@ =~= Set::<BladeNode>::empty());
        ctx
    }

    /// Whether the node has been hardened already.
    pub fn is_done(&self, bnode: BladeNode) -> (r: bool)
        ensures
            r == self@.contains(bnode),
    {
        let mut k: usize = 0;
        while k < self.bladenodes_done.len()
            invariant
                k <= self.bladenodes_done@.len(),
                forall|j: int| 0 <= j < k ==> #[trigger] self.bladenodes_done@[j] != bnode,
            decreases self.bladenodes_done@.len() - k,
        {
            if self.bladenodes_done[k] == bnode {
                return true;
            }
            k = k + 1;
        }
        false
    }

    /// Hardens the source at `bnode`, unless that has been done already.
    pub fn do_slh_on(&mut self, func: &mut Function, bnode: BladeNode) -> (r: Result<(), BladeError>)
        requires
            old(func).wf(),
            bladenode_fits(old(func)@, bnode),
        ensures
            final(func).wf(),
            final(func)@.values.len() >= old(func)@.values.len(),
            final(func)@.insts.len() >= old(func)@.insts.len(),
            final(self).allows_fake() == old(self).allows_fake(),
            match r {
                Ok(()) => slh_on(old(func)@, old(self)@, bnode, old(self).allows_fake()) == Ok::<
                    (FunctionView, Set<BladeNode>),
                    BladeError,
                >((final(func)@, final(self)@)),
                Err(e) => slh_on(old(func)@, old(self)@, bnode, old(self).allows_fake()) == Err::<
                    (FunctionView, Set<BladeNode>),
                    BladeError,
                >(e) && final(func)@ == old(func)@ && final(self)@ == old(self)@.insert(bnode),
            },
    {
        if self.is_done(bnode) {
            return Ok(());
        }
        self.bladenodes_done.push(bnode);
        proof {
            let done = self.bladenodes_done@;
            let before = old(self).bladenodes_done@;
            assert forall|b: BladeNode| self@.contains(b) <==> old(self)@.insert(bnode).contains(b) by {
                if done.contains(b) {
                    let k = choose|k: int| 0 <= k < done.len() && done[k] == b;
                    if k < before.len() {
                        assert(before[k] == b);
                    }
                }
                if before.contains(b) {
                    let k = choose|k: int| 0 <= k < before.len() && before[k] == b;
                    assert(done[k] == b);
                }
                assert(done[before.len() as int] == bnode);
            }
            assert(self@ =~= old(self)@.insert(bnode));
        }
        _do_slh_on(func, bnode, self.allow_fake_bounds)
    }
}

} // verus!
