//! The def-use index: for each value, the places that consume it.

use crate::error::BladeError;
use crate::ir::{cfg_fits, Block, BlockPredecessor, ControlFlowGraph, Function, FunctionView, Inst, Value};
use vstd::prelude::*;

verus! {

/// One consumer of a value.
#[derive(Clone, Copy, Debug, PartialEq, Eq, Hash, Structural)]
pub enum ValueUse {
    /// The value is an argument of this instruction.
    Inst(Inst),
    /// The value is forwarded to this block parameter along a control-flow
    /// edge.
    Value(Value),
}

/// The uses of `v` by the first `n` of the arguments `args` of `inst`: one
/// for each occurrence.
pub open spec fn arg_uses(inst: Inst, args: Seq<Value>, v: Value, n: int) -> Seq<ValueUse>
    decreases n,
{
    if n <= 0 {
        Seq::empty()
    } else if args[n - 1] == v {
        arg_uses(inst, args, v, n - 1).push(ValueUse::Inst(inst))
    } else {
        arg_uses(inst, args, v, n - 1)
    }
}

/// The uses of `v` as an argument by the first `n` of the instructions
/// `insts`.
pub open spec fn insts_uses(f: FunctionView, insts: Seq<Inst>, v: Value, n: int) -> Seq<ValueUse>
    decreases n,
{
    if n <= 0 {
        Seq::empty()
    } else {
        let args = f.insts[insts[n - 1].0 as int].args;
        insts_uses(f, insts, v, n - 1) + arg_uses(insts[n - 1], args, v, args.len() as int)
    }
}

/// The block parameters among the first `n` of `params` that receive `v`
/// when `passed` is what a branch hands over, position by position.
pub open spec fn param_uses(params: Seq<Value>, passed: Seq<Value>, v: Value, n: int) -> Seq<ValueUse>
    decreases n,
{
    if n <= 0 {
        Seq::empty()
    } else if passed[n - 1] == v {
        param_uses(params, passed, v, n - 1).push(ValueUse::Value(params[n - 1]))
    } else {
        param_uses(params, passed, v, n - 1)
    }
}

/// The block parameters that receive `v` along the first `n` of the edges
/// `preds` into a block with the parameters `params`.
pub open spec fn preds_uses(
    f: FunctionView,
    preds: Seq<BlockPredecessor>,
    params: Seq<Value>,
    v: Value,
    n: int,
) -> Seq<ValueUse>
    decreases n,
{
    if n <= 0 {
        Seq::empty()
    } else {
        preds_uses(f, preds, params, v, n - 1) + param_uses(
            params,
            f.insts[preds[n - 1].inst.0 as int].variable_args(),
            v,
            params.len() as int,
        )
    }
}

/// The uses of `v` that the first `n` blocks give rise to: for each block
/// in layout order, first the uses by its instructions, then the uses by
/// its parameters.
pub open spec fn uses_upto(f: FunctionView, cfg: Seq<Seq<BlockPredecessor>>, v: Value, n: int) -> Seq<
    ValueUse,
>
    decreases n,
{
    if n <= 0 {
        Seq::empty()
    } else {
        let block = f.blocks[n - 1];
        uses_upto(f, cfg, v, n - 1) + insts_uses(f, block.insts, v, block.insts.len() as int)
            + preds_uses(f, cfg[n - 1], block.params, v, cfg[n - 1].len() as int)
    }
}

/// All uses of `v` in the function `f` with the control-flow graph `cfg`.
pub open spec fn uses_of(f: FunctionView, cfg: Seq<Seq<BlockPredecessor>>, v: Value) -> Seq<ValueUse> {
    uses_upto(f, cfg, v, f.blocks.len() as int)
}

/// What is wrong with the edge `pred` into a block with the parameters
/// `params`, if anything.
pub open spec fn pred_error(f: FunctionView, pred: BlockPredecessor, params: Seq<Value>) -> Option<
    BladeError,
> {
    let data = f.insts[pred.inst.0 as int];
    if !data.opcode.spec_passes_block_args() {
        Some(BladeError::UnexpectedPredecessor)
    } else if data.variable_args().len() != params.len() {
        Some(BladeError::ArityMismatch)
    } else {
        None
    }
}

/// The first fault among the first `n` of the edges `preds` into a block.
pub open spec fn preds_error(f: FunctionView, preds: Seq<BlockPredecessor>, params: Seq<Value>, n: int) -> Option<
    BladeError,
>
    decreases n,
{
    if n <= 0 {
        None
    } else {
        match preds_error(f, preds, params, n - 1) {
            Some(e) => Some(e),
            None => pred_error(f, preds[n - 1], params),
        }
    }
}

/// The first fault among the control-flow edges into the first `n` blocks.
pub open spec fn cfg_error_upto(f: FunctionView, cfg: Seq<Seq<BlockPredecessor>>, n: int) -> Option<
    BladeError,
>
    decreases n,
{
    if n <= 0 {
        None
    } else {
        match cfg_error_upto(f, cfg, n - 1) {
            Some(e) => Some(e),
            None => preds_error(f, cfg[n - 1], f.blocks[n - 1].params, cfg[n - 1].len() as int),
        }
    }
}

/// The first fault among all control-flow edges, in the order of the blocks
/// that they enter.
pub open spec fn cfg_error(f: FunctionView, cfg: Seq<Seq<BlockPredecessor>>) -> Option<BladeError> {
    cfg_error_upto(f, cfg, f.blocks.len() as int)
}

/// For each value of a function, its uses.
pub struct DefUseGraph {
    map: Vec<Vec<ValueUse>>,
    /// What an unknown value is used by: nothing.
    none: Vec<ValueUse>,
}

impl DefUseGraph {
    #[verifier::type_invariant]
    spec fn inv(&self) -> bool {
        self.none@.len() == 0
    }

    /// The uses of each value, indexed by value number.
    pub closed spec fn view(&self) -> Seq<Seq<ValueUse>> {
        Seq::new(self.map@.len(), |v: int| self.map@[v]@)
    }

    /// The uses of `val`; a value that the index does not know has none.
    pub open spec fn uses(&self, val: Value) -> Seq<ValueUse> {
        if val.0 < self@.len() {
            self@[val.0 as int]
        } else {
            Seq::empty()
        }
    }

    /// Builds the index of `func`, whose control-flow graph is `cfg`.
    ///
    /// Fails on the first control-flow edge whose instruction cannot pass
    /// block arguments or passes another number than the block has
    /// parameters.
    pub fn for_function(func: &Function, cfg: &ControlFlowGraph) -> (r: Result<DefUseGraph, BladeError>)
        requires
            func.wf(),
            cfg.fits(func@),
        ensures
            match r {
                Ok(g) => {
                    &&& cfg_error(func@, cfg@) is None
                    &&& g@.len() == func@.values.len()
                    &&& forall|v: int|
                        0 <= v < func@.values.len() ==> #[trigger] g@[v] == uses_of(
                            func@,
                            cfg@,
                            Value(v as usize),
                        )
                },
                Err(e) => cfg_error(func@, cfg@) == Some(e),
            },
    {
        let ghost f = func@;
        let ghost c = cfg@;
        let nvalues = func.num_values();
        let mut map: Vec<Vec<ValueUse>> = Vec::new();
        let mut v: usize = 0;
        while v < nvalues
            invariant
                v <= nvalues,
                map@.len() == v,
                forall|j: int| 0 <= j < v ==> (#[trigger] map@[j])@ == Seq::<ValueUse>::empty(),
            decreases nvalues - v,
        {
            map.push(Vec::new());
            v = v + 1;
        }
        let nblocks = func.num_blocks();
        let mut b: usize = 0;
        while b < nblocks
            invariant
                func.wf(),
                cfg_fits(c, f),
                f == func@,
                c == cfg@,
                b <= nblocks == f.blocks.len(),
                map@.len() == nvalues == f.values.len(),
                cfg_error_upto(f, c, b as int) is None,
                forall|j: int|
                    0 <= j < nvalues ==> (#[trigger] map@[j])@ == uses_upto(f, c, Value(j as usize), b as int),
            decreases nblocks - b,
        {
            let block = Block(b);
            let insts = func.block_insts(block);
            let ghost done = |j: int| uses_upto(f, c, Value(j as usize), b as int);
            let mut i: usize = 0;
            while i < insts.len()
                invariant
                    func.wf(),
                    f == func@,
                    b < f.blocks.len(),
                    insts@ == f.blocks[b as int].insts,
                    i <= insts@.len(),
                    map@.len() == nvalues == f.values.len(),
                    forall|j: int|
                        0 <= j < nvalues ==> (#[trigger] map@[j])@ == done(j) + insts_uses(
                            f,
                            insts@,
                            Value(j as usize),
                            i as int,
                        ),
                decreases insts@.len() - i,
            {
                let inst = insts[i];
                assert(f.has_inst(f.blocks[b as int].insts[i as int]));
                let args = func.inst_args(inst);
                let ghost before = |j: int| done(j) + insts_uses(f, insts@, Value(j as usize), i as int);
                let mut a: usize = 0;
                while a < args.len()
                    invariant
                        func.wf(),
                        f == func@,
                        f.has_inst(inst),
                        args@ == f.insts[inst.0 as int].args,
                        a <= args@.len(),
                        map@.len() == nvalues == f.values.len(),
                        forall|j: int|
                            0 <= j < nvalues ==> (#[trigger] map@[j])@ == before(j) + arg_uses(
                                inst,
                                args@,
                                Value(j as usize),
                                a as int,
                            ),
                    decreases args@.len() - a,
                {
                    let arg = args[a];
                    assert(f.has_value(f.insts[inst.0 as int].args[a as int]));
                    let ghost prior = map@;
                    map[arg.0].push(ValueUse::Inst(inst));
                    proof {
                        assert forall|j: int| 0 <= j < nvalues implies (#[trigger] map@[j])@ == before(j)
                            + arg_uses(inst, args@, Value(j as usize), a + 1) by {
                            if j == arg.0 {
                                assert(Value(j as usize) == arg);
                                assert(map@[j]@ == prior[j]@.push(ValueUse::Inst(inst)));
                                assert(map@[j]@ =~= before(j) + arg_uses(
                                    inst,
                                    args@,
                                    Value(j as usize),
                                    a + 1,
                                ));
                            } else {
                                assert(Value(j as usize) != arg);
                                assert(map@[j] == prior[j]);
                            }
                        }
                    }
                    a = a + 1;
                }
                proof {
                    assert forall|j: int| 0 <= j < nvalues implies (#[trigger] map@[j])@ == done(j)
                        + insts_uses(f, insts@, Value(j as usize), i + 1) by {
                        assert(map@[j]@ =~= done(j) + insts_uses(f, insts@, Value(j as usize), i + 1));
                    }
                }
                i = i + 1;
            }
            let preds = cfg.preds(block);
            let params = func.block_params(block);
            let ghost with_insts = |j: int|
                done(j) + insts_uses(f, insts@, Value(j as usize), insts@.len() as int);
            let mut p: usize = 0;
            while p < preds.len()
                invariant
                    func.wf(),
                    cfg_fits(c, f),
                    f == func@,
                    c == cfg@,
                    b < f.blocks.len(),
                    preds@ == c[b as int],
                    params@ == f.blocks[b as int].params,
                    p <= preds@.len(),
                    map@.len() == nvalues == f.values.len(),
                    cfg_error_upto(f, c, b as int) is None,
                    preds_error(f, preds@, params@, p as int) is None,
                    forall|j: int|
                        0 <= j < nvalues ==> (#[trigger] map@[j])@ == with_insts(j) + preds_uses(
                            f,
                            preds@,
                            params@,
                            Value(j as usize),
                            p as int,
                        ),
                decreases preds@.len() - p,
            {
                let pred = preds[p];
                assert(f.has_inst(c[b as int][p as int].inst));
                let ghost rest = (preds@.len() - (p + 1)) as nat;
                if !func.opcode(pred.inst).passes_block_args() {
                    proof {
                        assert(preds_error(f, preds@, params@, p + 1) == Some(BladeError::UnexpectedPredecessor));
                        lemma_preds_error_stays(f, preds@, params@, p + 1, rest);
                        assert(p + 1 + rest == preds@.len());
                        assert(cfg_error_upto(f, c, b + 1) == Some(BladeError::UnexpectedPredecessor));
                        lemma_cfg_error_stays(f, c, b + 1, (f.blocks.len() - (b + 1)) as nat);
                    }
                    return Err(BladeError::UnexpectedPredecessor);
                }
                let args = func.inst_args(pred.inst);
                let fixed = func.num_fixed_args(pred.inst);
                assert(f.insts[pred.inst.0 as int].fixed <= f.insts[pred.inst.0 as int].args.len());
                if args.len() - fixed != params.len() {
                    proof {
                        assert(preds_error(f, preds@, params@, p + 1) == Some(BladeError::ArityMismatch));
                        lemma_preds_error_stays(f, preds@, params@, p + 1, rest);
                        assert(p + 1 + rest == preds@.len());
                        assert(cfg_error_upto(f, c, b + 1) == Some(BladeError::ArityMismatch));
                        lemma_cfg_error_stays(f, c, b + 1, (f.blocks.len() - (b + 1)) as nat);
                    }
                    return Err(BladeError::ArityMismatch);
                }
                let ghost passed = f.insts[pred.inst.0 as int].variable_args();
                let ghost before = |j: int|
                    with_insts(j) + preds_uses(f, preds@, params@, Value(j as usize), p as int);
                let mut k: usize = 0;
                while k < params.len()
                    invariant
                        func.wf(),
                        f == func@,
                        f.has_inst(pred.inst),
                        args@ == f.insts[pred.inst.0 as int].args,
                        fixed == f.insts[pred.inst.0 as int].fixed,
                        passed == f.insts[pred.inst.0 as int].variable_args(),
                        args@.len() - fixed == params@.len(),
                        k <= params@.len(),
                        map@.len() == nvalues == f.values.len(),
                        forall|j: int|
                            0 <= j < nvalues ==> (#[trigger] map@[j])@ == before(j) + param_uses(
                                params@,
                                passed,
                                Value(j as usize),
                                k as int,
                            ),
                    decreases params@.len() - k,
                {
                    assert(args@.len() == args.len());
                    let arg = args[fixed + k];
                    assert(f.has_value(f.insts[pred.inst.0 as int].args[fixed + k]));
                    assert(passed[k as int] == arg);
                    let ghost prior = map@;
                    map[arg.0].push(ValueUse::Value(params[k]));
                    proof {
                        assert forall|j: int| 0 <= j < nvalues implies (#[trigger] map@[j])@ == before(j)
                            + param_uses(params@, passed, Value(j as usize), k + 1) by {
                            if j == arg.0 {
                                assert(Value(j as usize) == arg);
                                assert(map@[j]@ == prior[j]@.push(ValueUse::Value(params@[k as int])));
                                assert(map@[j]@ =~= before(j) + param_uses(
                                    params@,
                                    passed,
                                    Value(j as usize),
                                    k + 1,
                                ));
                            } else {
                                assert(Value(j as usize) != arg);
                                assert(map@[j] == prior[j]);
                            }
                        }
                    }
                    k = k + 1;
                }
                proof {
                    assert forall|j: int| 0 <= j < nvalues implies (#[trigger] map@[j])@ == with_insts(j)
                        + preds_uses(f, preds@, params@, Value(j as usize), p + 1) by {
                        assert(map@[j]@ =~= with_insts(j) + preds_uses(
                            f,
                            preds@,
                            params@,
                            Value(j as usize),
                            p + 1,
                        ));
                    }
                }
                p = p + 1;
            }
            b = b + 1;
        }
        let g = DefUseGraph { map, none: Vec::new() };
        proof {
            assert forall|j: int| 0 <= j < func@.values.len() implies #[trigger] g@[j] == uses_of(
                func@,
                cfg@,
                Value(j as usize),
            ) by {
                assert(g@[j] == g.map@[j]@);
            }
        }
        Ok(g)
    }

    /// The uses of the given value. A value that the index does not know
    /// has none.
    pub fn uses_of_val(&self, val: Value) -> (uses: &Vec<ValueUse>)
        ensures
            uses@ == self.uses(val),
    {
        proof {
            use_type_invariant(self);
        }
        if val.0 < self.map.len() {
            &self.map[val.0]
        } else {
            &self.none
        }
    }

    /// The uses of all results of the given instruction, result by result.
    pub fn _uses_of_inst(&self, inst: Inst, func: &Function) -> (uses: Vec<ValueUse>)
        requires
            func@.has_inst(inst),
        ensures
            uses@ == self.uses_of_results(func@.insts[inst.0 as int].results, func@.insts[inst.0 as int].results.len() as int),
    {
        let results = func.inst_results(inst);
        let mut uses: Vec<ValueUse> = Vec::new();
        let mut r: usize = 0;
        while r < results.len()
            invariant
                r <= results@.len(),
                uses@ == self.uses_of_results(results@, r as int),
            decreases results@.len() - r,
        {
            let of_result = self.uses_of_val(results[r]);
            let ghost before = uses@;
            let mut k: usize = 0;
            while k < of_result.len()
                invariant
                    k <= of_result@.len(),
                    uses@ == before + of_result@.take(k as int),
                decreases of_result@.len() - k,
            {
                uses.push(of_result[k]);
                assert(before + of_result@.take(k + 1) =~= (before + of_result@.take(k as int)).push(
                    of_result@[k as int],
                ));
                k = k + 1;
            }
            assert(of_result@.take(of_result@.len() as int) =~= of_result@);
            r = r + 1;
        }
        uses
    }

    /// The uses of the first `n` of the values `results`, one value after
    /// the other.
    pub open spec fn uses_of_results(&self, results: Seq<Value>, n: int) -> Seq<ValueUse>
        decreases n,
    {
        if n <= 0 {
            Seq::empty()
        } else {
            self.uses_of_results(results, n - 1) + self.uses(results[n - 1])
        }
    }
}

/// A fault among the first `n` edges into a block is the first fault among
/// any more of them.
proof fn lemma_preds_error_stays(
    f: FunctionView,
    preds: Seq<BlockPredecessor>,
    params: Seq<Value>,
    n: int,
    more: nat,
)
    requires
        preds_error(f, preds, params, n) is Some,
    ensures
        preds_error(f, preds, params, n + more) == preds_error(f, preds, params, n),
    decreases more,
{
    if more > 0 {
        lemma_preds_error_stays(f, preds, params, n, (more - 1) as nat);
        assert(n + more > 0) by {
            if n <= 0 {
                assert(preds_error(f, preds, params, n) is None);
            }
        }
    }
}

/// A fault among the edges into the first `n` blocks is the first fault
/// among those into any more of them.
proof fn lemma_cfg_error_stays(f: FunctionView, cfg: Seq<Seq<BlockPredecessor>>, n: int, more: nat)
    requires
        cfg_error_upto(f, cfg, n) is Some,
    ensures
        cfg_error_upto(f, cfg, n + more) == cfg_error_upto(f, cfg, n),
    decreases more,
{
    if more > 0 {
        lemma_cfg_error_stays(f, cfg, n, (more - 1) as nat);
        assert(n + more > 0) by {
            if n <= 0 {
                assert(cfg_error_upto(f, cfg, n) is None);
            }
        }
    }
}

/// The use names an instruction or a value of the function.
pub open spec fn use_fits(f: FunctionView, u: ValueUse) -> bool {
    match u {
        ValueUse::Inst(inst) => f.has_inst(inst),
        ValueUse::Value(v) => f.has_value(v),
    }
}

/// Every use in the list names an instruction or a value of the function.
pub open spec fn uses_fit(f: FunctionView, uses: Seq<ValueUse>) -> bool {
    forall|k: int| 0 <= k < uses.len() ==> use_fits(f, #[trigger] uses[k])
}

proof fn lemma_arg_uses_fit(f: FunctionView, inst: Inst, args: Seq<Value>, v: Value, n: int)
    requires
        f.has_inst(inst),
    ensures
        uses_fit(f, arg_uses(inst, args, v, n)),
    decreases n,
{
    if n > 0 {
        lemma_arg_uses_fit(f, inst, args, v, n - 1);
    }
}

proof fn lemma_insts_uses_fit(f: FunctionView, insts: Seq<Inst>, v: Value, n: int)
    requires
        n <= insts.len(),
        forall|k: int| 0 <= k < insts.len() ==> f.has_inst(#[trigger] insts[k]),
    ensures
        uses_fit(f, insts_uses(f, insts, v, n)),
    decreases n,
{
    if n > 0 {
        lemma_insts_uses_fit(f, insts, v, n - 1);
        let args = f.insts[insts[n - 1].0 as int].args;
        lemma_arg_uses_fit(f, insts[n - 1], args, v, args.len() as int);
    }
}

proof fn lemma_param_uses_fit(f: FunctionView, params: Seq<Value>, passed: Seq<Value>, v: Value, n: int)
    requires
        n <= params.len(),
        forall|k: int| 0 <= k < params.len() ==> f.has_value(#[trigger] params[k]),
    ensures
        uses_fit(f, param_uses(params, passed, v, n)),
    decreases n,
{
    if n > 0 {
        lemma_param_uses_fit(f, params, passed, v, n - 1);
    }
}

proof fn lemma_preds_uses_fit(
    f: FunctionView,
    preds: Seq<BlockPredecessor>,
    params: Seq<Value>,
    v: Value,
    n: int,
)
    requires
        forall|k: int| 0 <= k < params.len() ==> f.has_value(#[trigger] params[k]),
    ensures
        uses_fit(f, preds_uses(f, preds, params, v, n)),
    decreases n,
{
    if n > 0 {
        lemma_preds_uses_fit(f, preds, params, v, n - 1);
        lemma_param_uses_fit(
            f,
            params,
            f.insts[preds[n - 1].inst.0 as int].variable_args(),
            v,
            params.len() as int,
        );
    }
}

proof fn lemma_uses_upto_fit(f: FunctionView, cfg: Seq<Seq<BlockPredecessor>>, v: Value, n: int)
    requires
        f.wf(),
        n <= f.blocks.len(),
    ensures
        uses_fit(f, uses_upto(f, cfg, v, n)),
    decreases n,
{
    if n > 0 {
        lemma_uses_upto_fit(f, cfg, v, n - 1);
        let block = f.blocks[n - 1];
        assert forall|k: int| 0 <= k < block.insts.len() implies f.has_inst(#[trigger] block.insts[k]) by {
            assert(f.has_inst(f.blocks[n - 1].insts[k]));
        }
        assert forall|k: int| 0 <= k < block.params.len() implies f.has_value(
            #[trigger] block.params[k],
        ) by {
            assert(f.has_value(f.blocks[n - 1].params[k]));
        }
        lemma_insts_uses_fit(f, block.insts, v, block.insts.len() as int);
        lemma_preds_uses_fit(f, cfg[n - 1], block.params, v, cfg[n - 1].len() as int);
    }
}

/// Every use of a value of a well-formed function is by an instruction or
/// a block parameter of that function.
pub proof fn lemma_uses_fit(f: FunctionView, cfg: Seq<Seq<BlockPredecessor>>, v: Value)
    requires
        f.wf(),
    ensures
        uses_fit(f, uses_of(f, cfg, v)),
{
    lemma_uses_upto_fit(f, cfg, v, f.blocks.len() as int);
}

} // verus!
