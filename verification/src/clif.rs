//! Emission plans: what a function asks of the code generator, request by request.
//!
//! A request that yields something is named by its position in the plan, so a plan is in SSA form
//! by construction.
use crate::bridge::{ClifTy, RtFn};
use crate::ir::VarId;
use std::collections::HashSet;
use vstd::prelude::*;

verus! {

broadcast use vstd::std_specs::hash::group_hash_axioms;

/// A condition on two integers.
#[derive(Clone, Copy, Debug, PartialEq, Eq, Structural)]
pub enum IntCond {
    Equal,
    SignedLessThan,
    SignedGreaterThan,
    SignedLessThanOrEqual,
    SignedGreaterThanOrEqual,
}

/// An ordered condition on two floats.
#[derive(Clone, Copy, Debug, PartialEq, Eq, Structural)]
pub enum FloatCond {
    LessThan,
    GreaterThan,
    LessThanOrEqual,
    GreaterThanOrEqual,
}

/// An arithmetic instruction on two operands of one type.
#[derive(Clone, Copy, Debug, PartialEq, Eq, Structural)]
pub enum Arith {
    Iadd,
    Isub,
    Imul,
    /// The upper half of a signed product.
    Smulhi,
    Fadd,
    Fsub,
    Fmul,
    Fdiv,
}

/// The width of a stack cell.
#[derive(Clone, Copy, Debug, PartialEq, Eq, Structural)]
pub enum Cell {
    /// Eight bytes, aligned.
    Word,
    /// One byte.
    Byte,
}

/// A request.  The `usize` operands are positions of earlier requests.
#[allow(inconsistent_fields)]
#[derive(Debug)]
pub enum Op {
    /// Yields a block.
    CreateBlock,
    SwitchTo(usize),
    /// Gives the block one parameter for each parameter of the function.
    FunctionParams(usize),
    /// Yields a parameter of the block.
    BlockParam { block: usize, index: usize },
    /// Gives the block a parameter, and yields it.
    AppendParam { block: usize, ty: ClifTy },
    DeclareVar { var: VarId, ty: ClifTy },
    DefVar { var: VarId, value: usize },
    /// Yields the current value of the variable.
    UseVar(VarId),
    Iconst { ty: ClifTy, value: i64 },
    /// A float, by its bit pattern.
    F64const(u64),
    Binary { op: Arith, a: usize, b: usize },
    IntTest { cond: IntCond, a: usize, b: usize },
    IntTestImm { cond: IntCond, a: usize, imm: i64 },
    FloatTest { cond: FloatCond, a: usize, b: usize },
    FcvtFromSint(usize),
    /// Yields a reference to a bridge function.
    ImportRt(RtFn),
    /// Yields a reference to a declared function of the program.
    ImportUser(String),
    /// Yields the result of the call.
    Call { func: usize, args: Vec<usize> },
    /// A call whose result, if any, is not looked at.
    CallVoid { func: usize, args: Vec<usize> },
    FuncAddr(usize),
    /// Yields a stack slot of `count` cells.
    StackSlot { cell: Cell, count: usize },
    StackStore { value: usize, slot: usize, cell: Cell, index: usize },
    StackAddr(usize),
    /// Yields a read-only data object with the bytes of a text.
    TextData(String),
    /// Yields a writable data object of eight zero bytes.
    ZeroData,
    DataAddr(usize),
    /// Yields the pointer stored at an address.
    LoadPtr(usize),
    Brif { cond: usize, then_block: usize, then_args: Vec<usize>, else_block: usize, else_args: Vec<usize> },
    Jump { block: usize, args: Vec<usize> },
    Return(usize),
    SealAll,
}

/// What a request is, with texts and lists as sequences.
#[allow(inconsistent_fields)]
pub enum OpView {
    CreateBlock,
    SwitchTo(usize),
    FunctionParams(usize),
    BlockParam { block: usize, index: usize },
    AppendParam { block: usize, ty: ClifTy },
    DeclareVar { var: VarId, ty: ClifTy },
    DefVar { var: VarId, value: usize },
    UseVar(VarId),
    Iconst { ty: ClifTy, value: i64 },
    F64const(u64),
    Binary { op: Arith, a: usize, b: usize },
    IntTest { cond: IntCond, a: usize, b: usize },
    IntTestImm { cond: IntCond, a: usize, imm: i64 },
    FloatTest { cond: FloatCond, a: usize, b: usize },
    FcvtFromSint(usize),
    ImportRt(RtFn),
    ImportUser(Seq<char>),
    Call { func: usize, args: Seq<usize> },
    CallVoid { func: usize, args: Seq<usize> },
    FuncAddr(usize),
    StackSlot { cell: Cell, count: usize },
    StackStore { value: usize, slot: usize, cell: Cell, index: usize },
    StackAddr(usize),
    TextData(Seq<char>),
    ZeroData,
    DataAddr(usize),
    LoadPtr(usize),
    Brif { cond: usize, then_block: usize, then_args: Seq<usize>, else_block: usize, else_args: Seq<usize> },
    Jump { block: usize, args: Seq<usize> },
    Return(usize),
    SealAll,
}

impl View for Op {
    type V = OpView;

    open spec fn view(&self) -> OpView {
        match *self {
            Op::CreateBlock => OpView::CreateBlock,
            Op::SwitchTo(b) => OpView::SwitchTo(b),
            Op::FunctionParams(b) => OpView::FunctionParams(b),
            Op::BlockParam { block, index } => OpView::BlockParam { block, index },
            Op::AppendParam { block, ty } => OpView::AppendParam { block, ty },
            Op::DeclareVar { var, ty } => OpView::DeclareVar { var, ty },
            Op::DefVar { var, value } => OpView::DefVar { var, value },
            Op::UseVar(v) => OpView::UseVar(v),
            Op::Iconst { ty, value } => OpView::Iconst { ty, value },
            Op::F64const(bits) => OpView::F64const(bits),
            Op::Binary { op, a, b } => OpView::Binary { op, a, b },
            Op::IntTest { cond, a, b } => OpView::IntTest { cond, a, b },
            Op::IntTestImm { cond, a, imm } => OpView::IntTestImm { cond, a, imm },
            Op::FloatTest { cond, a, b } => OpView::FloatTest { cond, a, b },
            Op::FcvtFromSint(a) => OpView::FcvtFromSint(a),
            Op::ImportRt(f) => OpView::ImportRt(f),
            Op::ImportUser(name) => OpView::ImportUser(name@),
            Op::Call { func, args } => OpView::Call { func, args: args@ },
            Op::CallVoid { func, args } => OpView::CallVoid { func, args: args@ },
            Op::FuncAddr(f) => OpView::FuncAddr(f),
            Op::StackSlot { cell, count } => OpView::StackSlot { cell, count },
            Op::StackStore { value, slot, cell, index } => OpView::StackStore { value, slot, cell, index },
            Op::StackAddr(s) => OpView::StackAddr(s),
            Op::TextData(t) => OpView::TextData(t@),
            Op::ZeroData => OpView::ZeroData,
            Op::DataAddr(d) => OpView::DataAddr(d),
            Op::LoadPtr(a) => OpView::LoadPtr(a),
            Op::Brif { cond, then_block, then_args, else_block, else_args } => OpView::Brif {
                cond,
                then_block,
                then_args: then_args@,
                else_block,
                else_args: else_args@,
            },
            Op::Jump { block, args } => OpView::Jump { block, args: args@ },
            Op::Return(v) => OpView::Return(v),
            Op::SealAll => OpView::SealAll,
        }
    }
}

/// A plan under construction, with the variables that it has declared.
pub struct PlanView {
    pub ops: Seq<OpView>,
    pub declared: Set<u32>,
}

/// A plan under construction.
pub struct Plan {
    pub ops: Vec<Op>,
    pub declared: HashSet<u32>,
}

pub open spec fn ops_view(ops: Seq<Op>) -> Seq<OpView> {
    ops.map_values(|o: Op| o@)
}

impl View for Plan {
    type V = PlanView;

    open spec fn view(&self) -> PlanView {
        PlanView { ops: ops_view(self.ops@), declared: self.declared@ }
    }
}

/// The name of what the next request yields.
pub open spec fn next(s: PlanView) -> usize {
    s.ops.len() as usize
}

/// The plan with one more request.
pub open spec fn emit(s: PlanView, op: OpView) -> PlanView {
    PlanView { ops: s.ops.push(op), declared: s.declared }
}

impl Plan {
    /// A plan without requests.
    pub fn new() -> (r: Plan)
        ensures
            r@.ops == Seq::<OpView>::empty(),
            r@.declared == Set::<u32>::empty(),
    {
        let r = Plan { ops: Vec::new(), declared: HashSet::new() };
        assert(ops_view(r.ops@) =~= Seq::<OpView>::empty());
        r
    }

    /// Appends a request, and names what it yields.
    pub fn emit(&mut self, op: Op) -> (r: usize)
        ensures
            final(self)@ == emit(old(self)@, op@),
            r == next(old(self)@),
            r == old(self)@.ops.len(),
    {
        let id: usize = self.ops.len();
        let ghost before = self.ops@;
        self.ops.push(op);
        assert(ops_view(self.ops@) =~= ops_view(before).push(op@));
        id
    }
}

} // verus!
