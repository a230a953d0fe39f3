//! The SSA function that the pass reads and rewrites: values, instructions,
//! blocks, the order of instructions inside each block, the fence markers
//! and the pointer bounds, together with the control-flow graph.
//!
//! A function is built through its methods only, so every function that
//! exists is well formed in the sense of [`FunctionView::wf`].

use vstd::prelude::*;

verus! {

/// An SSA value, named by its number in the function.
#[derive(Clone, Copy, Debug, PartialEq, Eq, Hash, Structural)]
pub struct Value(pub usize);

/// An instruction, named by its number in the function.
#[derive(Clone, Copy, Debug, PartialEq, Eq, Hash, Structural)]
pub struct Inst(pub usize);

/// An extended basic block, named by its number in the function. Blocks are
/// laid out in the order of their numbers.
#[derive(Clone, Copy, Debug, PartialEq, Eq, Hash, Structural)]
pub struct Block(pub usize);

/// The type of a value.
#[derive(Clone, Copy, Debug, PartialEq, Eq, Hash, Structural)]
pub enum Type {
    I8,
    I16,
    I32,
    I64,
    /// CPU flags, as a comparison leaves them.
    IFlags,
}

impl Type {
    /// The size of a value of this type in bytes; flags have none.
    pub open spec fn spec_bytes(self) -> u64 {
        match self {
            Type::I8 => 1,
            Type::I16 => 2,
            Type::I32 => 4,
            Type::I64 => 8,
            Type::IFlags => 0,
        }
    }

    #[verifier::when_used_as_spec(spec_bytes)]
    pub fn bytes(self) -> (n: u64)
        ensures
            n == self.spec_bytes(),
    {
        match self {
            Type::I8 => 1,
            Type::I16 => 2,
            Type::I32 => 4,
            Type::I64 => 8,
            Type::IFlags => 0,
        }
    }
}

/// The condition that a flag-consuming instruction tests.
#[derive(Clone, Copy, Debug, PartialEq, Eq, Hash, Structural)]
pub enum IntCC {
    Equal,
    NotEqual,
    UnsignedLessThan,
    UnsignedGreaterThanOrEqual,
    UnsignedGreaterThan,
    UnsignedLessThanOrEqual,
}

/// What an instruction does.
#[derive(Clone, Copy, Debug, PartialEq, Eq, Hash, Structural)]
pub enum Opcode {
    Iconst,
    Iadd,
    IaddImm,
    Isub,
    Band,
    IntCompare,
    Selectif,
    Load,
    /// Reload of a spilled value from its stack slot.
    Fill,
    FillNop,
    Store,
    Jump,
    Brz,
    Brnz,
    BrCompare,
    Brif,
    BrTable,
    IndirectJumpTableBr,
    Call,
    CallIndirect,
    Return,
}

impl Opcode {
    /// The instruction may read memory.
    pub open spec fn spec_can_load(self) -> bool {
        self == Opcode::Load || self == Opcode::Fill || self == Opcode::FillNop
    }

    /// The instruction reloads a stack slot, which no attacker steers.
    pub open spec fn spec_is_fill(self) -> bool {
        self == Opcode::Fill || self == Opcode::FillNop
    }

    /// The instruction may write memory.
    pub open spec fn spec_can_store(self) -> bool {
        self == Opcode::Store
    }

    /// The instruction is a branch of any kind, a plain jump included.
    pub open spec fn spec_is_branch(self) -> bool {
        self == Opcode::Jump || self == Opcode::Brz || self == Opcode::Brnz || self
            == Opcode::BrCompare || self == Opcode::Brif || self == Opcode::BrTable || self
            == Opcode::IndirectJumpTableBr
    }

    /// The instruction branches to a computed address.
    pub open spec fn spec_is_indirect_branch(self) -> bool {
        self == Opcode::IndirectJumpTableBr
    }

    /// The instruction calls a function.
    pub open spec fn spec_is_call(self) -> bool {
        self == Opcode::Call || self == Opcode::CallIndirect
    }

    /// The instruction's variable arguments are what it hands to the
    /// parameters of a block that it transfers control to.
    pub open spec fn spec_passes_block_args(self) -> bool {
        self == Opcode::Jump || self == Opcode::Brz || self == Opcode::Brnz || self
            == Opcode::BrCompare || self == Opcode::Brif || self == Opcode::IndirectJumpTableBr
            || self == Opcode::Call || self == Opcode::CallIndirect
    }

    /// The instruction ends a basic block: a call or a branch.
    pub open spec fn spec_ends_basic_block(self) -> bool {
        self.spec_is_call() || self.spec_is_branch() || self.spec_is_indirect_branch()
    }

    #[verifier::when_used_as_spec(spec_can_load)]
    pub fn can_load(self) -> (r: bool)
        ensures
            r == self.spec_can_load(),
    {
        self == Opcode::Load || self == Opcode::Fill || self == Opcode::FillNop
    }

    #[verifier::when_used_as_spec(spec_is_fill)]
    pub fn is_fill(self) -> (r: bool)
        ensures
            r == self.spec_is_fill(),
    {
        self == Opcode::Fill || self == Opcode::FillNop
    }

    #[verifier::when_used_as_spec(spec_can_store)]
    pub fn can_store(self) -> (r: bool)
        ensures
            r == self.spec_can_store(),
    {
        self == Opcode::Store
    }

    #[verifier::when_used_as_spec(spec_is_branch)]
    pub fn is_branch(self) -> (r: bool)
        ensures
            r == self.spec_is_branch(),
    {
        self == Opcode::Jump || self == Opcode::Brz || self == Opcode::Brnz || self
            == Opcode::BrCompare || self == Opcode::Brif || self == Opcode::BrTable || self
            == Opcode::IndirectJumpTableBr
    }

    #[verifier::when_used_as_spec(spec_is_indirect_branch)]
    pub fn is_indirect_branch(self) -> (r: bool)
        ensures
            r == self.spec_is_indirect_branch(),
    {
        self == Opcode::IndirectJumpTableBr
    }

    #[verifier::when_used_as_spec(spec_is_call)]
    pub fn is_call(self) -> (r: bool)
        ensures
            r == self.spec_is_call(),
    {
        self == Opcode::Call || self == Opcode::CallIndirect
    }

    #[verifier::when_used_as_spec(spec_passes_block_args)]
    pub fn passes_block_args(self) -> (r: bool)
        ensures
            r == self.spec_passes_block_args(),
    {
        self == Opcode::Jump || self == Opcode::Brz || self == Opcode::Brnz || self
            == Opcode::BrCompare || self == Opcode::Brif || self == Opcode::IndirectJumpTableBr
            || self == Opcode::Call || self == Opcode::CallIndirect
    }

    #[verifier::when_used_as_spec(spec_ends_basic_block)]
    pub fn ends_basic_block(self) -> (r: bool)
        ensures
            r == self.spec_ends_basic_block(),
    {
        self.is_call() || self.is_branch() || self.is_indirect_branch()
    }
}

/// Where a value is defined.
#[derive(Clone, Copy, Debug, PartialEq, Eq, Hash, Structural)]
pub enum ValueDef {
    /// The value is the result with the given index of an instruction.
    Result(Inst, usize),
    /// The value is the parameter with the given index of a block.
    Param(Block, usize),
}

/// The byte range that a pointer is claimed to lie in: from `lower`
/// inclusive to `upper` exclusive.
#[derive(Clone, Copy, Debug, PartialEq, Eq, Hash, Structural)]
pub struct Bounds {
    pub lower: Value,
    pub upper: Value,
    /// The bounds come from an analysis, not from a made-up object size.
    pub directly_annotated: bool,
}

/// What the function records of one value.
#[derive(Clone, Copy, Debug, PartialEq, Eq, Hash, Structural)]
pub struct ValueData {
    pub ty: Type,
    pub def: ValueDef,
    pub bounds: Option<Bounds>,
}

/// One instruction as a mathematical value.
pub struct InstView {
    pub opcode: Opcode,
    /// All arguments: the fixed ones first, then the variable ones.
    pub args: Seq<Value>,
    /// How many of the arguments are fixed.
    pub fixed: nat,
    pub results: Seq<Value>,
    pub imm: i64,
    pub cond: Option<IntCC>,
    /// The block that holds the instruction, if it has been placed.
    pub block: Option<Block>,
}

impl InstView {
    /// The arguments forwarded to a destination block's parameters.
    pub open spec fn variable_args(self) -> Seq<Value> {
        self.args.skip(self.fixed as int)
    }
}

/// One block as a mathematical value.
pub struct BlockView {
    pub params: Seq<Value>,
    /// The block's instructions, first to last.
    pub insts: Seq<Inst>,
}

/// A function as a mathematical value. Values, instructions and blocks are
/// indexed by their numbers.
pub struct FunctionView {
    pub insts: Seq<InstView>,
    pub blocks: Seq<BlockView>,
    pub values: Seq<ValueData>,
    /// For each instruction, whether a fence goes right before it.
    pub pre_lfence: Seq<bool>,
    /// For each instruction, whether a fence goes right after it.
    pub post_lfence: Seq<bool>,
}

impl FunctionView {
    pub open spec fn has_value(self, v: Value) -> bool {
        v.0 < self.values.len()
    }

    pub open spec fn has_inst(self, i: Inst) -> bool {
        i.0 < self.insts.len()
    }

    pub open spec fn has_block(self, b: Block) -> bool {
        b.0 < self.blocks.len()
    }

    /// Every operand and result of every instruction is a value of the
    /// function, and no instruction has more fixed arguments than arguments.
    pub open spec fn insts_wf(self) -> bool {
        forall|i: int|
            0 <= i < self.insts.len() ==> {
                &&& (#[trigger] self.insts[i]).fixed <= self.insts[i].args.len()
                &&& forall|k: int|
                    0 <= k < self.insts[i].args.len() ==> self.has_value(
                        #[trigger] self.insts[i].args[k],
                    )
                &&& forall|k: int|
                    0 <= k < self.insts[i].results.len() ==> self.has_value(
                        #[trigger] self.insts[i].results[k],
                    )
            }
    }

    /// The instruction lists of the blocks and the block recorded with each
    /// instruction say the same, and no list names an instruction twice.
    pub open spec fn layout_wf(self) -> bool {
        &&& forall|i: int|
            0 <= i < self.insts.len() ==> match (#[trigger] self.insts[i]).block {
                Some(b) => self.has_block(b) && self.blocks[b.0 as int].insts.contains(
                    Inst(i as usize),
                ),
                None => true,
            }
        &&& forall|b: int, p: int|
            0 <= b < self.blocks.len() && 0 <= p < self.blocks[b].insts.len() ==> {
                &&& self.has_inst(#[trigger] self.blocks[b].insts[p])
                &&& self.insts[self.blocks[b].insts[p].0 as int].block == Some(Block(b as usize))
            }
        &&& forall|b: int|
            0 <= b < self.blocks.len() ==> (#[trigger] self.blocks[b]).insts.no_duplicates()
    }

    /// Block parameters, definitions and bounds name what exists, and a
    /// value's definition is the place that lists it.
    pub open spec fn values_wf(self) -> bool {
        &&& forall|b: int, k: int|
            0 <= b < self.blocks.len() && 0 <= k < self.blocks[b].params.len() ==> self.has_value(
                #[trigger] self.blocks[b].params[k],
            )
        &&& forall|v: int|
            0 <= v < self.values.len() ==> match (#[trigger] self.values[v]).def {
                ValueDef::Result(i, k) => self.has_inst(i) && k < self.insts[i.0 as int].results.len()
                    && self.insts[i.0 as int].results[k as int] == Value(v as usize),
                ValueDef::Param(b, k) => self.has_block(b) && k < self.blocks[b.0 as int].params.len()
                    && self.blocks[b.0 as int].params[k as int] == Value(v as usize),
            }
        &&& forall|v: int|
            0 <= v < self.values.len() ==> match (#[trigger] self.values[v]).bounds {
                Some(bounds) => self.has_value(bounds.lower) && self.has_value(bounds.upper),
                None => true,
            }
    }

    /// The function is well formed.
    pub open spec fn wf(self) -> bool {
        &&& self.insts.len() <= usize::MAX
        &&& self.blocks.len() <= usize::MAX
        &&& self.values.len() <= usize::MAX
        &&& self.pre_lfence.len() == self.insts.len()
        &&& self.post_lfence.len() == self.insts.len()
        &&& self.insts_wf()
        &&& self.layout_wf()
        &&& self.values_wf()
    }

    /// The function with one more block, empty and last in the layout.
    pub open spec fn with_block(self) -> FunctionView {
        FunctionView {
            blocks: self.blocks.push(BlockView { params: Seq::empty(), insts: Seq::empty() }),
            ..self
        }
    }

    /// The function with one more parameter of type `ty` on `block`; the
    /// parameter is a new value, numbered after all others.
    pub open spec fn with_param(self, block: Block, ty: Type) -> FunctionView {
        let old_block = self.blocks[block.0 as int];
        let v = Value(self.values.len() as usize);
        FunctionView {
            blocks: self.blocks.update(
                block.0 as int,
                BlockView { params: old_block.params.push(v), ..old_block },
            ),
            values: self.values.push(
                ValueData {
                    ty,
                    def: ValueDef::Param(block, old_block.params.len() as usize),
                    bounds: None,
                },
            ),
            ..self
        }
    }

    /// The function with one more instruction, not yet placed in a block,
    /// and one new value for each of its result types. The instruction and
    /// the values are numbered after all others.
    pub open spec fn with_inst(
        self,
        opcode: Opcode,
        args: Seq<Value>,
        fixed: nat,
        imm: i64,
        cond: Option<IntCC>,
        result_types: Seq<Type>,
    ) -> FunctionView {
        let inst = Inst(self.insts.len() as usize);
        let base = self.values.len();
        FunctionView {
            insts: self.insts.push(
                InstView {
                    opcode,
                    args,
                    fixed,
                    results: Seq::new(result_types.len(), |k: int| Value((base + k) as usize)),
                    imm,
                    cond,
                    block: None,
                },
            ),
            values: self.values + Seq::new(
                result_types.len(),
                |k: int|
                    ValueData {
                        ty: result_types[k],
                        def: ValueDef::Result(inst, k as usize),
                        bounds: None,
                    },
            ),
            pre_lfence: self.pre_lfence.push(false),
            post_lfence: self.post_lfence.push(false),
            ..self
        }
    }

    /// The function with `inst` placed in `block` at position `at`.
    pub open spec fn placed_at(self, inst: Inst, block: Block, at: int) -> FunctionView {
        let old_block = self.blocks[block.0 as int];
        FunctionView {
            insts: self.insts.update(
                inst.0 as int,
                InstView { block: Some(block), ..self.insts[inst.0 as int] },
            ),
            blocks: self.blocks.update(
                block.0 as int,
                BlockView { insts: old_block.insts.insert(at, inst), ..old_block },
            ),
            ..self
        }
    }

    /// The function with `inst` placed last in `block`.
    pub open spec fn placed_last(self, inst: Inst, block: Block) -> FunctionView {
        self.placed_at(inst, block, self.blocks[block.0 as int].insts.len() as int)
    }

    /// The position of a placed instruction in its block.
    pub open spec fn position(self, inst: Inst) -> int {
        self.blocks[self.insts[inst.0 as int].block.unwrap().0 as int].insts.index_of(inst)
    }

    /// The function with `inst` placed right before the placed instruction
    /// `before`.
    pub open spec fn placed_before(self, inst: Inst, before: Inst) -> FunctionView {
        self.placed_at(inst, self.insts[before.0 as int].block.unwrap(), self.position(before))
    }

    /// The function with the bounds of `v` set.
    pub open spec fn with_bounds(self, v: Value, bounds: Option<Bounds>) -> FunctionView {
        FunctionView {
            values: self.values.update(v.0 as int, ValueData { bounds, ..self.values[v.0 as int] }),
            ..self
        }
    }

    /// The function with argument `k` of `inst` replaced by `v`.
    pub open spec fn with_arg(self, inst: Inst, k: int, v: Value) -> FunctionView {
        let old_inst = self.insts[inst.0 as int];
        FunctionView {
            insts: self.insts.update(
                inst.0 as int,
                InstView { args: old_inst.args.update(k, v), ..old_inst },
            ),
            ..self
        }
    }

    /// The function with a fence marked right before `inst`.
    pub open spec fn fenced_before(self, inst: Inst) -> FunctionView {
        FunctionView { pre_lfence: self.pre_lfence.update(inst.0 as int, true), ..self }
    }

    /// The function with a fence marked right after `inst`.
    pub open spec fn fenced_after(self, inst: Inst) -> FunctionView {
        FunctionView { post_lfence: self.post_lfence.update(inst.0 as int, true), ..self }
    }

}

struct InstData {
    opcode: Opcode,
    args: Vec<Value>,
    fixed: usize,
    results: Vec<Value>,
    imm: i64,
    cond: Option<IntCC>,
    block: Option<Block>,
}

impl InstData {
    spec fn view(&self) -> InstView {
        InstView {
            opcode: self.opcode,
            args: self.args@,
            fixed: self.fixed as nat,
            results: self.results@,
            imm: self.imm,
            cond: self.cond,
            block: self.block,
        }
    }
}

struct BlockData {
    params: Vec<Value>,
    insts: Vec<Inst>,
}

impl BlockData {
    spec fn view(&self) -> BlockView {
        BlockView { params: self.params@, insts: self.insts@ }
    }
}

/// A function in SSA form.
pub struct Function {
    insts: Vec<InstData>,
    blocks: Vec<BlockData>,
    values: Vec<ValueData>,
    pre_lfence: Vec<bool>,
    post_lfence: Vec<bool>,
}

impl Function {
    pub closed spec fn view(&self) -> FunctionView {
        FunctionView {
            insts: Seq::new(self.insts@.len(), |i: int| self.insts@[i]@),
            blocks: Seq::new(self.blocks@.len(), |b: int| self.blocks@[b]@),
            values: self.values@,
            pre_lfence: self.pre_lfence@,
            post_lfence: self.post_lfence@,
        }
    }

    /// The function is well formed. Every function that the methods below
    /// hand out is.
    pub open spec fn wf(&self) -> bool {
        self@.wf()
    }

    /// A function without blocks, instructions or values.
    pub fn new() -> (f: Function)
        ensures
            f.wf(),
            f@.insts.len() == 0,
            f@.blocks.len() == 0,
            f@.values.len() == 0,
    {
        Function {
            insts: Vec::new(),
            blocks: Vec::new(),
            values: Vec::new(),
            pre_lfence: Vec::new(),
            post_lfence: Vec::new(),
        }
    }

    pub fn num_values(&self) -> (n: usize)
        ensures
            n == self@.values.len(),
    {
        self.values.len()
    }

    pub fn num_insts(&self) -> (n: usize)
        ensures
            n == self@.insts.len(),
    {
        self.insts.len()
    }

    pub fn num_blocks(&self) -> (n: usize)
        ensures
            n == self@.blocks.len(),
    {
        self.blocks.len()
    }

    pub fn opcode(&self, inst: Inst) -> (op: Opcode)
        requires
            self@.has_inst(inst),
        ensures
            op == self@.insts[inst.0 as int].opcode,
    {
        self.insts[inst.0].opcode
    }

    /// All arguments of an instruction, fixed and variable.
    pub fn inst_args(&self, inst: Inst) -> (args: &Vec<Value>)
        requires
            self@.has_inst(inst),
        ensures
            args@ == self@.insts[inst.0 as int].args,
    {
        &self.insts[inst.0].args
    }

    /// How many of an instruction's arguments are fixed; the variable ones
    /// follow them.
    pub fn num_fixed_args(&self, inst: Inst) -> (n: usize)
        requires
            self@.has_inst(inst),
        ensures
            n == self@.insts[inst.0 as int].fixed,
    {
        self.insts[inst.0].fixed
    }

    pub fn inst_results(&self, inst: Inst) -> (results: &Vec<Value>)
        requires
            self@.has_inst(inst),
        ensures
            results@ == self@.insts[inst.0 as int].results,
    {
        &self.insts[inst.0].results
    }

    pub fn inst_imm(&self, inst: Inst) -> (imm: i64)
        requires
            self@.has_inst(inst),
        ensures
            imm == self@.insts[inst.0 as int].imm,
    {
        self.insts[inst.0].imm
    }

    pub fn inst_cond(&self, inst: Inst) -> (cond: Option<IntCC>)
        requires
            self@.has_inst(inst),
        ensures
            cond == self@.insts[inst.0 as int].cond,
    {
        self.insts[inst.0].cond
    }

    /// The block that holds an instruction, if it has been placed.
    pub fn inst_block(&self, inst: Inst) -> (block: Option<Block>)
        requires
            self@.has_inst(inst),
        ensures
            block == self@.insts[inst.0 as int].block,
    {
        self.insts[inst.0].block
    }

    pub fn block_params(&self, block: Block) -> (params: &Vec<Value>)
        requires
            self@.has_block(block),
        ensures
            params@ == self@.blocks[block.0 as int].params,
    {
        &self.blocks[block.0].params
    }

    /// The instructions of a block, first to last.
    pub fn block_insts(&self, block: Block) -> (insts: &Vec<Inst>)
        requires
            self@.has_block(block),
        ensures
            insts@ == self@.blocks[block.0 as int].insts,
    {
        &self.blocks[block.0].insts
    }

    /// The first instruction of a block, if it has any.
    pub fn first_inst(&self, block: Block) -> (first: Option<Inst>)
        requires
            self@.has_block(block),
        ensures
            first == (if self@.blocks[block.0 as int].insts.len() == 0 {
                None
            } else {
                Some(self@.blocks[block.0 as int].insts[0])
            }),
    {
        if self.blocks[block.0].insts.len() == 0 {
            None
        } else {
            Some(self.blocks[block.0].insts[0])
        }
    }

    pub fn value_def(&self, v: Value) -> (def: ValueDef)
        requires
            self@.has_value(v),
        ensures
            def == self@.values[v.0 as int].def,
    {
        self.values[v.0].def
    }

    pub fn value_type(&self, v: Value) -> (ty: Type)
        requires
            self@.has_value(v),
        ensures
            ty == self@.values[v.0 as int].ty,
    {
        self.values[v.0].ty
    }

    pub fn bounds(&self, v: Value) -> (bounds: Option<Bounds>)
        requires
            self@.has_value(v),
        ensures
            bounds == self@.values[v.0 as int].bounds,
    {
        self.values[v.0].bounds
    }

    /// Whether a fence is marked right before an instruction.
    pub fn pre_lfence(&self, inst: Inst) -> (marked: bool)
        requires
            self.wf(),
            self@.has_inst(inst),
        ensures
            marked == self@.pre_lfence[inst.0 as int],
    {
        self.pre_lfence[inst.0]
    }

    /// Whether a fence is marked right after an instruction.
    pub fn post_lfence(&self, inst: Inst) -> (marked: bool)
        requires
            self.wf(),
            self@.has_inst(inst),
        ensures
            marked == self@.post_lfence[inst.0 as int],
    {
        self.post_lfence[inst.0]
    }

    /// Adds an empty block at the end of the layout.
    pub fn create_block(&mut self) -> (block: Block)
        requires
            old(self).wf(),
        ensures
            final(self).wf(),
            block.0 == old(self)@.blocks.len(),
            final(self)@ == old(self)@.with_block(),
    {
        let block = Block(self.blocks.len());
        self.blocks.push(BlockData { params: Vec::new(), insts: Vec::new() });
        proof {
            assert(self@.blocks =~= old(self)@.with_block().blocks);
            assert(self@.insts =~= old(self)@.insts);
            assert(self@.blocks.len() == self.blocks.len());
            let new = self@;
            let before = old(self)@;
            assert forall|b: int, p: int|
                0 <= b < new.blocks.len() && 0 <= p < new.blocks[b].insts.len() implies {
                &&& new.has_inst(#[trigger] new.blocks[b].insts[p])
                &&& new.insts[new.blocks[b].insts[p].0 as int].block == Some(Block(b as usize))
            } by {
                assert(before.blocks[b].insts[p] == new.blocks[b].insts[p]);
            }
            assert forall|b: int, k: int|
                0 <= b < new.blocks.len() && 0 <= k < new.blocks[b].params.len() implies new.has_value(
                #[trigger] new.blocks[b].params[k],
            ) by {
                assert(before.blocks[b].params[k] == new.blocks[b].params[k]);
            }
        }
        block
    }

    /// Adds a parameter of type `ty` to a block and returns the new value.
    pub fn append_block_param(&mut self, block: Block, ty: Type) -> (v: Value)
        requires
            old(self).wf(),
            old(self)@.has_block(block),
        ensures
            final(self).wf(),
            v.0 == old(self)@.values.len(),
            final(self)@ == old(self)@.with_param(block, ty),
    {
        let v = Value(self.values.len());
        let k = self.blocks[block.0].params.len();
        self.values.push(ValueData { ty, def: ValueDef::Param(block, k), bounds: None });
        self.blocks[block.0].params.push(v);
        proof {
            let new = self@;
            let before = old(self)@;
            assert(new.blocks =~= before.with_param(block, ty).blocks);
            assert(new.insts =~= before.insts);
            assert(new.values =~= before.with_param(block, ty).values);
            assert(before.values.len() + 1 == self.values.len());
            assert(before.blocks[block.0 as int].params.len() + 1 == self.blocks[block.0 as int].params.len());
            lemma_wf_with_param(before, block, ty);
        }
        v
    }

    /// Creates an instruction, not yet placed in a block, with one new
    /// result value for each entry of `result_types`.
    pub fn make_inst(
        &mut self,
        opcode: Opcode,
        args: Vec<Value>,
        fixed: usize,
        imm: i64,
        cond: Option<IntCC>,
        result_types: Vec<Type>,
    ) -> (inst: Inst)
        requires
            old(self).wf(),
            fixed <= args@.len(),
            forall|k: int| 0 <= k < args@.len() ==> old(self)@.has_value(#[trigger] args@[k]),
        ensures
            final(self).wf(),
            inst.0 == old(self)@.insts.len(),
            final(self)@ == old(self)@.with_inst(
                opcode,
                args@,
                fixed as nat,
                imm,
                cond,
                result_types@,
            ),
    {
        let inst = Inst(self.insts.len());
        let ghost base = self.values@.len();
        let mut results: Vec<Value> = Vec::new();
        let n = result_types.len();
        let mut k: usize = 0;
        while k < n
            invariant
                k <= n,
                n == result_types@.len(),
                base == old(self).values@.len(),
                self.values@.len() == base + k,
                results@ =~= Seq::new(k as nat, |j: int| Value((base + j) as usize)),
                self.values@ =~= old(self).values@ + Seq::new(
                    k as nat,
                    |j: int|
                        ValueData {
                            ty: result_types@[j],
                            def: ValueDef::Result(inst, j as usize),
                            bounds: None,
                        },
                ),
                self.insts == old(self).insts,
                self.blocks == old(self).blocks,
                self.pre_lfence == old(self).pre_lfence,
                self.post_lfence == old(self).post_lfence,
            decreases n - k,
        {
            results.push(Value(self.values.len()));
            self.values.push(ValueData { ty: result_types[k], def: ValueDef::Result(inst, k), bounds: None });
            k = k + 1;
        }
        self.insts.push(InstData { opcode, args, fixed, results, imm, cond, block: None });
        self.pre_lfence.push(false);
        self.post_lfence.push(false);
        proof {
            let new = self@;
            let before = old(self)@;
            let target = before.with_inst(opcode, args@, fixed as nat, imm, cond, result_types@);
            assert(new.insts =~= target.insts);
            assert(new.blocks =~= target.blocks);
            assert(new.values =~= target.values);
            assert(base + n == self.values.len());
            assert(before.insts.len() + 1 == self.insts.len());
            lemma_wf_with_inst(before, opcode, args@, fixed as nat, imm, cond, result_types@);
        }
        inst
    }

    /// Places a free instruction last in a block.
    pub fn append_inst(&mut self, inst: Inst, block: Block)
        requires
            old(self).wf(),
            old(self)@.has_inst(inst),
            old(self)@.has_block(block),
            old(self)@.insts[inst.0 as int].block is None,
        ensures
            final(self).wf(),
            final(self)@ == old(self)@.placed_last(inst, block),
    {
        self.insts[inst.0].block = Some(block);
        self.blocks[block.0].insts.push(inst);
        proof {
            let new = self@;
            let before = old(self)@;
            let at = before.blocks[block.0 as int].insts.len() as int;
            assert(before.blocks[block.0 as int].insts.insert(at, inst) =~= before.blocks[block.0 as int].insts.push(inst));
            assert(new.insts =~= before.placed_last(inst, block).insts);
            assert(new.blocks =~= before.placed_last(inst, block).blocks);
            lemma_wf_placed_at(before, inst, block, at);
        }
    }

    /// The position of a placed instruction in its block.
    pub fn inst_position(&self, inst: Inst) -> (at: usize)
        requires
            self.wf(),
            self@.has_inst(inst),
            self@.insts[inst.0 as int].block is Some,
        ensures
            at == self@.position(inst),
            at < self@.blocks[self@.insts[inst.0 as int].block.unwrap().0 as int].insts.len(),
            self@.blocks[self@.insts[inst.0 as int].block.unwrap().0 as int].insts[at as int] == inst,
    {
        let block = self.insts[inst.0].block.unwrap();
        let list = &self.blocks[block.0].insts;
        let ghost target = list@.index_of(inst);
        proof {
            assert(self@.insts[inst.0 as int].block == Some(block));
            assert(self@.blocks[block.0 as int].insts.contains(inst));
            assert(list@ == self@.blocks[block.0 as int].insts);
            assert(list@.no_duplicates());
        }
        let mut at: usize = 0;
        while list[at] != inst
            invariant
                0 <= at <= target < list.len(),
                list@[target] == inst,
                list@.no_duplicates(),
            decreases target - at,
        {
            assert(at < target);
            at = at + 1;
        }
        at
    }

    /// Places a free instruction right before a placed one.
    pub fn insert_inst_before(&mut self, inst: Inst, before: Inst)
        requires
            old(self).wf(),
            old(self)@.has_inst(inst),
            old(self)@.has_inst(before),
            old(self)@.insts[inst.0 as int].block is None,
            old(self)@.insts[before.0 as int].block is Some,
        ensures
            final(self).wf(),
            final(self)@ == old(self)@.placed_before(inst, before),
    {
        let at = self.inst_position(before);
        let block = self.insts[before.0].block.unwrap();
        self.insts[inst.0].block = Some(block);
        self.blocks[block.0].insts.insert(at, inst);
        proof {
            let new = self@;
            let prior = old(self)@;
            assert(new.insts =~= prior.placed_before(inst, before).insts);
            assert(new.blocks =~= prior.placed_before(inst, before).blocks);
            lemma_wf_placed_at(prior, inst, block, at as int);
        }
    }

    /// Sets or clears the bounds recorded for a value.
    pub fn set_bounds(&mut self, v: Value, bounds: Option<Bounds>)
        requires
            old(self).wf(),
            old(self)@.has_value(v),
            bounds matches Some(b) ==> old(self)@.has_value(b.lower) && old(self)@.has_value(b.upper),
        ensures
            final(self).wf(),
            final(self)@ == old(self)@.with_bounds(v, bounds),
    {
        let data = self.values[v.0];
        self.values.set(v.0, ValueData { ty: data.ty, def: data.def, bounds });
        proof {
            let new = self@;
            let prior = old(self)@;
            assert(new.insts =~= prior.insts);
            assert(new.blocks =~= prior.blocks);
            assert(new.values =~= prior.with_bounds(v, bounds).values);
        }
    }

    /// Replaces argument `k` of an instruction.
    pub fn replace_arg(&mut self, inst: Inst, k: usize, v: Value)
        requires
            old(self).wf(),
            old(self)@.has_inst(inst),
            k < old(self)@.insts[inst.0 as int].args.len(),
            old(self)@.has_value(v),
        ensures
            final(self).wf(),
            final(self)@ == old(self)@.with_arg(inst, k as int, v),
    {
        self.insts[inst.0].args.set(k, v);
        proof {
            let new = self@;
            let prior = old(self)@;
            assert(new.insts =~= prior.with_arg(inst, k as int, v).insts);
            assert(new.blocks =~= prior.blocks);
            lemma_wf_with_arg(prior, inst, k as int, v);
        }
    }

    /// Marks a fence right before an instruction.
    pub fn set_pre_lfence(&mut self, inst: Inst)
        requires
            old(self).wf(),
            old(self)@.has_inst(inst),
        ensures
            final(self).wf(),
            final(self)@ == old(self)@.fenced_before(inst),
    {
        self.pre_lfence.set(inst.0, true);
        proof {
            assert(self@.insts =~= old(self)@.insts);
            assert(self@.blocks =~= old(self)@.blocks);
        }
    }

    /// Marks a fence right after an instruction.
    pub fn set_post_lfence(&mut self, inst: Inst)
        requires
            old(self).wf(),
            old(self)@.has_inst(inst),
        ensures
            final(self).wf(),
            final(self)@ == old(self)@.fenced_after(inst),
    {
        self.post_lfence.set(inst.0, true);
        proof {
            assert(self@.insts =~= old(self)@.insts);
            assert(self@.blocks =~= old(self)@.blocks);
        }
    }
}

/// One way into a block: the predecessor block and the instruction in it
/// that transfers control.
#[derive(Clone, Copy, Debug, PartialEq, Eq, Hash, Structural)]
pub struct BlockPredecessor {
    pub block: Block,
    pub inst: Inst,
}

/// The control-flow graph of a function: for each block, the ways into it.
pub struct ControlFlowGraph {
    preds: Vec<Vec<BlockPredecessor>>,
}

/// The predecessor lists `preds` fit the function `f`: there is one list
/// for each block, and each transferring instruction exists.
pub open spec fn cfg_fits(preds: Seq<Seq<BlockPredecessor>>, f: FunctionView) -> bool {
    &&& preds.len() == f.blocks.len()
    &&& forall|b: int, k: int|
        0 <= b < preds.len() && 0 <= k < preds[b].len() ==> f.has_inst((#[trigger] preds[b][k]).inst)
}

impl ControlFlowGraph {
    /// The predecessors of each block, indexed by block number, in the
    /// order in which the edges were added.
    pub closed spec fn view(&self) -> Seq<Seq<BlockPredecessor>> {
        Seq::new(self.preds@.len(), |b: int| self.preds@[b]@)
    }

    /// The graph is one of the function `f`.
    pub open spec fn fits(&self, f: FunctionView) -> bool {
        cfg_fits(self@, f)
    }

    /// A graph over `blocks` blocks without any edge.
    pub fn with_blocks(blocks: usize) -> (cfg: ControlFlowGraph)
        ensures
            cfg@.len() == blocks,
            forall|b: int| 0 <= b < blocks ==> (#[trigger] cfg@[b]).len() == 0,
    {
        let mut preds: Vec<Vec<BlockPredecessor>> = Vec::new();
        let mut b: usize = 0;
        while b < blocks
            invariant
                b <= blocks,
                preds@.len() == b,
                forall|j: int| 0 <= j < b ==> (#[trigger] preds@[j])@.len() == 0,
            decreases blocks - b,
        {
            preds.push(Vec::new());
            b = b + 1;
        }
        ControlFlowGraph { preds }
    }

    pub fn num_blocks(&self) -> (n: usize)
        ensures
            n == self@.len(),
    {
        self.preds.len()
    }

    /// Records that `inst` in block `from` transfers control to block `to`.
    pub fn add_edge(&mut self, from: Block, inst: Inst, to: Block)
        requires
            to.0 < old(self)@.len(),
        ensures
            final(self)@ == old(self)@.update(
                to.0 as int,
                old(self)@[to.0 as int].push(BlockPredecessor { block: from, inst }),
            ),
    {
        self.preds[to.0].push(BlockPredecessor { block: from, inst });
        proof {
            assert(self@ =~= old(self)@.update(
                to.0 as int,
                old(self)@[to.0 as int].push(BlockPredecessor { block: from, inst }),
            ));
        }
    }

    /// The ways into a block.
    pub fn preds(&self, block: Block) -> (preds: &Vec<BlockPredecessor>)
        requires
            block.0 < self@.len(),
        ensures
            preds@ == self@[block.0 as int],
    {
        &self.preds[block.0]
    }
}

/// Adding a block parameter keeps a function well formed.
proof fn lemma_wf_with_param(f: FunctionView, block: Block, ty: Type)
    requires
        f.wf(),
        f.has_block(block),
        f.values.len() < usize::MAX,
        f.blocks[block.0 as int].params.len() < usize::MAX,
    ensures
        f.with_param(block, ty).wf(),
{
    let g = f.with_param(block, ty);
    assert forall|i: int| 0 <= i < g.insts.len() implies {
        &&& (#[trigger] g.insts[i]).fixed <= g.insts[i].args.len()
        &&& forall|k: int| 0 <= k < g.insts[i].args.len() ==> g.has_value(#[trigger] g.insts[i].args[k])
        &&& forall|k: int|
            0 <= k < g.insts[i].results.len() ==> g.has_value(#[trigger] g.insts[i].results[k])
    } by {
        assert(f.insts[i] == g.insts[i]);
        assert forall|k: int| 0 <= k < g.insts[i].args.len() implies g.has_value(
            #[trigger] g.insts[i].args[k],
        ) by {
            assert(f.has_value(f.insts[i].args[k]));
        }
        assert forall|k: int| 0 <= k < g.insts[i].results.len() implies g.has_value(
            #[trigger] g.insts[i].results[k],
        ) by {
            assert(f.has_value(f.insts[i].results[k]));
        }
    }
    assert forall|i: int| 0 <= i < g.insts.len() implies match (#[trigger] g.insts[i]).block {
        Some(b) => g.has_block(b) && g.blocks[b.0 as int].insts.contains(Inst(i as usize)),
        None => true,
    } by {
        assert(f.insts[i] == g.insts[i]);
    }
    assert forall|b: int, p: int|
        0 <= b < g.blocks.len() && 0 <= p < g.blocks[b].insts.len() implies {
        &&& g.has_inst(#[trigger] g.blocks[b].insts[p])
        &&& g.insts[g.blocks[b].insts[p].0 as int].block == Some(Block(b as usize))
    } by {
        assert(f.blocks[b].insts[p] == g.blocks[b].insts[p]);
    }
    assert forall|b: int| 0 <= b < g.blocks.len() implies (#[trigger] g.blocks[b]).insts.no_duplicates() by {
        assert(f.blocks[b].insts == g.blocks[b].insts);
    }
    assert forall|b: int, k: int|
        0 <= b < g.blocks.len() && 0 <= k < g.blocks[b].params.len() implies g.has_value(
        #[trigger] g.blocks[b].params[k],
    ) by {
        if b == block.0 && k == f.blocks[b].params.len() {
        } else {
            assert(f.has_value(f.blocks[b].params[k]));
        }
    }
    assert forall|v: int| 0 <= v < g.values.len() implies match (#[trigger] g.values[v]).def {
        ValueDef::Result(i, k) => g.has_inst(i) && k < g.insts[i.0 as int].results.len()
            && g.insts[i.0 as int].results[k as int] == Value(v as usize),
        ValueDef::Param(b, k) => g.has_block(b) && k < g.blocks[b.0 as int].params.len()
            && g.blocks[b.0 as int].params[k as int] == Value(v as usize),
    } by {
        if v < f.values.len() {
            assert(f.values[v] == g.values[v]);
        }
    }
    assert forall|v: int| 0 <= v < g.values.len() implies match (#[trigger] g.values[v]).bounds {
        Some(bounds) => g.has_value(bounds.lower) && g.has_value(bounds.upper),
        None => true,
    } by {
        if v < f.values.len() {
            assert(f.values[v] == g.values[v]);
        }
    }
}

/// Adding a free instruction over existing values keeps a function well
/// formed.
proof fn lemma_wf_with_inst(
    f: FunctionView,
    opcode: Opcode,
    args: Seq<Value>,
    fixed: nat,
    imm: i64,
    cond: Option<IntCC>,
    result_types: Seq<Type>,
)
    requires
        f.wf(),
        fixed <= args.len(),
        forall|k: int| 0 <= k < args.len() ==> f.has_value(#[trigger] args[k]),
        f.values.len() + result_types.len() <= usize::MAX,
        f.insts.len() < usize::MAX,
    ensures
        f.with_inst(opcode, args, fixed, imm, cond, result_types).wf(),
{
    let g = f.with_inst(opcode, args, fixed, imm, cond, result_types);
    let n = f.insts.len() as int;
    assert forall|i: int| 0 <= i < g.insts.len() implies {
        &&& (#[trigger] g.insts[i]).fixed <= g.insts[i].args.len()
        &&& forall|k: int| 0 <= k < g.insts[i].args.len() ==> g.has_value(#[trigger] g.insts[i].args[k])
        &&& forall|k: int|
            0 <= k < g.insts[i].results.len() ==> g.has_value(#[trigger] g.insts[i].results[k])
    } by {
        if i < n {
            assert(f.insts[i] == g.insts[i]);
            assert forall|k: int| 0 <= k < g.insts[i].args.len() implies g.has_value(
                #[trigger] g.insts[i].args[k],
            ) by {
                assert(f.has_value(f.insts[i].args[k]));
            }
            assert forall|k: int| 0 <= k < g.insts[i].results.len() implies g.has_value(
                #[trigger] g.insts[i].results[k],
            ) by {
                assert(f.has_value(f.insts[i].results[k]));
            }
        } else {
            assert forall|k: int| 0 <= k < g.insts[i].args.len() implies g.has_value(
                #[trigger] g.insts[i].args[k],
            ) by {
                assert(f.has_value(args[k]));
            }
        }
    }
    assert forall|i: int| 0 <= i < g.insts.len() implies match (#[trigger] g.insts[i]).block {
        Some(b) => g.has_block(b) && g.blocks[b.0 as int].insts.contains(Inst(i as usize)),
        None => true,
    } by {
        if i < n {
            assert(f.insts[i] == g.insts[i]);
        }
    }
    assert forall|b: int, p: int|
        0 <= b < g.blocks.len() && 0 <= p < g.blocks[b].insts.len() implies {
        &&& g.has_inst(#[trigger] g.blocks[b].insts[p])
        &&& g.insts[g.blocks[b].insts[p].0 as int].block == Some(Block(b as usize))
    } by {
        assert(f.has_inst(f.blocks[b].insts[p]));
        assert(f.insts[f.blocks[b].insts[p].0 as int] == g.insts[g.blocks[b].insts[p].0 as int]);
    }
    assert forall|b: int, k: int|
        0 <= b < g.blocks.len() && 0 <= k < g.blocks[b].params.len() implies g.has_value(
        #[trigger] g.blocks[b].params[k],
    ) by {
        assert(f.has_value(f.blocks[b].params[k]));
    }
    assert forall|v: int| 0 <= v < g.values.len() implies match (#[trigger] g.values[v]).def {
        ValueDef::Result(i, k) => g.has_inst(i) && k < g.insts[i.0 as int].results.len()
            && g.insts[i.0 as int].results[k as int] == Value(v as usize),
        ValueDef::Param(b, k) => g.has_block(b) && k < g.blocks[b.0 as int].params.len()
            && g.blocks[b.0 as int].params[k as int] == Value(v as usize),
    } by {
        if v < f.values.len() {
            assert(f.values[v] == g.values[v]);
            match f.values[v].def {
                ValueDef::Result(i, k) => {
                    assert(f.insts[i.0 as int] == g.insts[i.0 as int]);
                },
                ValueDef::Param(b, k) => {},
            }
        }
    }
    assert forall|v: int| 0 <= v < g.values.len() implies match (#[trigger] g.values[v]).bounds {
        Some(bounds) => g.has_value(bounds.lower) && g.has_value(bounds.upper),
        None => true,
    } by {
        if v < f.values.len() {
            assert(f.values[v] == g.values[v]);
        }
    }
}

/// Placing a free instruction at a position of a block keeps a function
/// well formed.
proof fn lemma_wf_placed_at(f: FunctionView, inst: Inst, block: Block, at: int)
    requires
        f.wf(),
        f.has_inst(inst),
        f.has_block(block),
        f.insts[inst.0 as int].block is None,
        0 <= at <= f.blocks[block.0 as int].insts.len(),
    ensures
        f.placed_at(inst, block, at).wf(),
{
    let g = f.placed_at(inst, block, at);
    let old_list = f.blocks[block.0 as int].insts;
    let new_list = g.blocks[block.0 as int].insts;
    assert(new_list == old_list.insert(at, inst));
    assert(!old_list.contains(inst)) by {
        if old_list.contains(inst) {
            let p = choose|p: int| 0 <= p < old_list.len() && old_list[p] == inst;
            assert(f.insts[f.blocks[block.0 as int].insts[p].0 as int].block == Some(block));
        }
    }
    assert forall|i: int| 0 <= i < g.insts.len() implies {
        &&& (#[trigger] g.insts[i]).fixed <= g.insts[i].args.len()
        &&& forall|k: int| 0 <= k < g.insts[i].args.len() ==> g.has_value(#[trigger] g.insts[i].args[k])
        &&& forall|k: int|
            0 <= k < g.insts[i].results.len() ==> g.has_value(#[trigger] g.insts[i].results[k])
    } by {
        assert(f.insts[i].args == g.insts[i].args);
        assert(f.insts[i].results == g.insts[i].results);
        assert forall|k: int| 0 <= k < g.insts[i].args.len() implies g.has_value(
            #[trigger] g.insts[i].args[k],
        ) by {
            assert(f.has_value(f.insts[i].args[k]));
        }
        assert forall|k: int| 0 <= k < g.insts[i].results.len() implies g.has_value(
            #[trigger] g.insts[i].results[k],
        ) by {
            assert(f.has_value(f.insts[i].results[k]));
        }
    }
    assert forall|i: int| 0 <= i < g.insts.len() implies match (#[trigger] g.insts[i]).block {
        Some(b) => g.has_block(b) && g.blocks[b.0 as int].insts.contains(Inst(i as usize)),
        None => true,
    } by {
        if i == inst.0 {
            assert(new_list[at] == inst);
        } else {
            assert(f.insts[i] == g.insts[i]);
            match f.insts[i].block {
                Some(b) => {
                    let l = f.blocks[b.0 as int].insts;
                    let p = choose|p: int| 0 <= p < l.len() && l[p] == Inst(i as usize);
                    if b == block {
                        if p < at {
                            assert(new_list[p] == Inst(i as usize));
                        } else {
                            assert(new_list[p + 1] == Inst(i as usize));
                        }
                    } else {
                        assert(g.blocks[b.0 as int].insts[p] == Inst(i as usize));
                    }
                },
                None => {},
            }
        }
    }
    assert forall|b: int, p: int|
        0 <= b < g.blocks.len() && 0 <= p < g.blocks[b].insts.len() implies {
        &&& g.has_inst(#[trigger] g.blocks[b].insts[p])
        &&& g.insts[g.blocks[b].insts[p].0 as int].block == Some(Block(b as usize))
    } by {
        if b == block.0 {
            if p < at {
                assert(new_list[p] == old_list[p]);
                assert(f.has_inst(f.blocks[b].insts[p]));
                assert(old_list[p] != inst);
            } else if p == at {
            } else {
                assert(new_list[p] == old_list[p - 1]);
                assert(f.has_inst(f.blocks[b].insts[p - 1]));
                assert(old_list[p - 1] != inst);
            }
        } else {
            assert(f.has_inst(f.blocks[b].insts[p]));
            assert(f.insts[f.blocks[b].insts[p].0 as int].block == Some(Block(b as usize)));
        }
    }
    assert forall|b: int| 0 <= b < g.blocks.len() implies (#[trigger] g.blocks[b]).insts.no_duplicates() by {
        if b == block.0 {
            assert(f.blocks[b].insts.no_duplicates());
            assert forall|p: int, q: int|
                0 <= p < new_list.len() && 0 <= q < new_list.len() && p != q implies new_list[p]
                != new_list[q] by {
                let op = if p < at { p } else { p - 1 };
                let oq = if q < at { q } else { q - 1 };
                if p == at {
                    assert(old_list[oq] != inst);
                } else if q == at {
                    assert(old_list[op] != inst);
                } else {
                    assert(old_list[op] != old_list[oq]);
                }
            }
        } else {
            assert(f.blocks[b].insts.no_duplicates());
        }
    }
    assert forall|b: int, k: int|
        0 <= b < g.blocks.len() && 0 <= k < g.blocks[b].params.len() implies g.has_value(
        #[trigger] g.blocks[b].params[k],
    ) by {
        assert(f.has_value(f.blocks[b].params[k]));
    }
    assert forall|v: int| 0 <= v < g.values.len() implies match (#[trigger] g.values[v]).def {
        ValueDef::Result(i, k) => g.has_inst(i) && k < g.insts[i.0 as int].results.len()
            && g.insts[i.0 as int].results[k as int] == Value(v as usize),
        ValueDef::Param(b, k) => g.has_block(b) && k < g.blocks[b.0 as int].params.len()
            && g.blocks[b.0 as int].params[k as int] == Value(v as usize),
    } by {
        match f.values[v].def {
            ValueDef::Result(i, k) => {
                assert(f.insts[i.0 as int].results == g.insts[i.0 as int].results);
            },
            ValueDef::Param(b, k) => {
                assert(f.blocks[b.0 as int].params == g.blocks[b.0 as int].params);
            },
        }
    }
}

/// Replacing an argument by an existing value keeps a function well formed.
proof fn lemma_wf_with_arg(f: FunctionView, inst: Inst, k: int, v: Value)
    requires
        f.wf(),
        f.has_inst(inst),
        0 <= k < f.insts[inst.0 as int].args.len(),
        f.has_value(v),
    ensures
        f.with_arg(inst, k, v).wf(),
{
    let g = f.with_arg(inst, k, v);
    assert forall|i: int| 0 <= i < g.insts.len() implies {
        &&& (#[trigger] g.insts[i]).fixed <= g.insts[i].args.len()
        &&& forall|j: int| 0 <= j < g.insts[i].args.len() ==> g.has_value(#[trigger] g.insts[i].args[j])
        &&& forall|j: int|
            0 <= j < g.insts[i].results.len() ==> g.has_value(#[trigger] g.insts[i].results[j])
    } by {
        assert(f.insts[i].results == g.insts[i].results);
        assert forall|j: int| 0 <= j < g.insts[i].args.len() implies g.has_value(
            #[trigger] g.insts[i].args[j],
        ) by {
            if i == inst.0 && j == k {
            } else {
                assert(f.has_value(f.insts[i].args[j]));
            }
        }
        assert forall|j: int| 0 <= j < g.insts[i].results.len() implies g.has_value(
            #[trigger] g.insts[i].results[j],
        ) by {
            assert(f.has_value(f.insts[i].results[j]));
        }
    }
    assert forall|i: int| 0 <= i < g.insts.len() implies match (#[trigger] g.insts[i]).block {
        Some(b) => g.has_block(b) && g.blocks[b.0 as int].insts.contains(Inst(i as usize)),
        None => true,
    } by {
        assert(f.insts[i].block == g.insts[i].block);
    }
    assert forall|b: int, p: int|
        0 <= b < g.blocks.len() && 0 <= p < g.blocks[b].insts.len() implies {
        &&& g.has_inst(#[trigger] g.blocks[b].insts[p])
        &&& g.insts[g.blocks[b].insts[p].0 as int].block == Some(Block(b as usize))
    } by {
        assert(f.has_inst(f.blocks[b].insts[p]));
        assert(f.insts[f.blocks[b].insts[p].0 as int].block == Some(Block(b as usize)));
    }
    assert forall|u: int| 0 <= u < g.values.len() implies match (#[trigger] g.values[u]).def {
        ValueDef::Result(i, j) => g.has_inst(i) && j < g.insts[i.0 as int].results.len()
            && g.insts[i.0 as int].results[j as int] == Value(u as usize),
        ValueDef::Param(b, j) => g.has_block(b) && j < g.blocks[b.0 as int].params.len()
            && g.blocks[b.0 as int].params[j as int] == Value(u as usize),
    } by {
        assert(f.values[u] == g.values[u]);
        match f.values[u].def {
            ValueDef::Result(i, j) => {
                assert(f.has_inst(i));
                assert(f.insts[i.0 as int].results == g.insts[i.0 as int].results);
            },
            ValueDef::Param(b, j) => {
                assert(f.has_block(b));
            },
        }
    }
}

} // verus!
