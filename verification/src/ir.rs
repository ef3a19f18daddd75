//! The intermediate representation: functions in SSA form, made of basic blocks.
use crate::form;
use crate::form::{Form, FormView};
use vstd::prelude::*;

verus! {

/// Names a value of a function.
#[derive(Clone, Copy, Debug, PartialEq, Eq, Structural, Hash)]
pub struct VarId(pub u32);

/// Names a basic block of a function.
#[derive(Clone, Copy, Debug, PartialEq, Eq, Structural, Hash)]
pub struct BlockId(pub u32);

/// Machine representation of a value in compiled code.
#[derive(Clone, Copy, Debug, PartialEq, Eq, Structural)]
pub enum Repr {
    /// A pointer to a runtime value.
    Boxed,
    /// A raw 64-bit integer.
    Long,
    /// A raw 64-bit float.
    Double,
    /// A raw byte holding zero or one.
    Bool,
}

/// A place in a source file.
#[derive(Debug)]
pub struct Span {
    pub file: String,
    pub start: usize,
    pub end: usize,
    pub line: u32,
    pub col: u32,
}

/// A literal.
#[derive(Debug)]
pub enum Const {
    Nil,
    Bool(bool),
    Long(i64),
    /// A float, by its bit pattern.
    Double(u64),
    Char(char),
    Str(String),
    Keyword(String),
    Symbol(String),
}

/// A function of the core library that the backends know by name.
#[derive(Clone, Copy, Debug, PartialEq, Eq, Structural)]
pub enum KnownFn {
    Vector,
    HashMap,
    HashSet,
    List,
    Assoc,
    Dissoc,
    Conj,
    Disj,
    Get,
    Nth,
    Count,
    Contains,
    Transient,
    AssocBang,
    ConjBang,
    PersistentBang,
    First,
    Rest,
    Next,
    Cons,
    /// `seq`
    ToSeq,
    LazySeq,
    Add,
    Sub,
    Mul,
    Div,
    Rem,
    Eq,
    Lt,
    Gt,
    Lte,
    Gte,
    IsNil,
    IsSeq,
    IsVector,
    IsMap,
    Identical,
    Str,
    Deref,
    Println,
    Pr,
    AtomDeref,
    AtomReset,
    AtomSwap,
    Apply,
    TryCatchFinally,
    CountFilter,
    IntoFilter,
    IntoMapcat,
    IntoMap,
    SetBangVar,
    WithBindings,
    Reduce2,
    Reduce3,
    /// `map`
    MapSeq,
    Filter,
    Mapv,
    Filterv,
    /// `some`
    SomePred,
    Every,
    Into,
    Into3,
    Range1,
    Range2,
    Range3,
    Take,
    Drop,
    Reverse,
    Sort,
    SortBy,
    Concat,
    Keys,
    Vals,
    Merge,
    Update,
    GetIn,
    AssocIn,
    IsNumber,
    IsString,
    IsKeyword,
    IsSymbol,
    IsBool,
    IsInt,
    Prn,
    Print,
    Atom,
    GroupBy,
    Partition2,
    Partition3,
    Partition4,
    Frequencies,
    Keep,
    Remove,
    MapIndexed,
    Zipmap,
    Juxt,
    Comp,
    Partial,
    Complement,
    WithOutStr,
    Peek,
    Pop,
    Vec,
    Mapcat,
    IsEmpty,
    Repeatedly,
}

/// What a region allocation builds.
#[derive(Clone, Copy, Debug, PartialEq, Eq, Structural)]
pub enum RegionAllocKind {
    Vector,
    HashMap,
    HashSet,
    List,
    Cons,
}

/// The compiled arities behind a closure.
#[derive(Debug)]
pub struct ClosureTemplate {
    pub name: Option<String>,
    pub arity_fn_names: Vec<String>,
    pub param_counts: Vec<usize>,
    pub is_variadic: Vec<bool>,
    pub capture_names: Vec<String>,
    /// The source of the closure, where its arities have not been compiled.
    pub body_forms: Vec<Form>,
}

/// An instruction.  Where it defines a value, that value comes first.
#[derive(Debug)]
pub enum Inst {
    Const(VarId, Const),
    LoadLocal(VarId, String),
    LoadGlobal(VarId, String, String),
    LoadVar(VarId, String, String),
    AllocVector(VarId, Vec<VarId>),
    AllocMap(VarId, Vec<(VarId, VarId)>),
    AllocSet(VarId, Vec<VarId>),
    AllocList(VarId, Vec<VarId>),
    AllocCons(VarId, VarId, VarId),
    AllocClosure(VarId, ClosureTemplate, Vec<VarId>),
    CallKnown(VarId, KnownFn, Vec<VarId>),
    Call(VarId, VarId, Vec<VarId>),
    CallDirect(VarId, String, Vec<VarId>),
    Deref(VarId, VarId),
    DefVar(VarId, String, String, VarId),
    SetBang(VarId, VarId),
    Throw(VarId),
    Phi(VarId, Vec<(BlockId, VarId)>),
    Recur(Vec<VarId>),
    SourceLoc(Span),
    RegionStart(VarId),
    RegionAlloc(VarId, VarId, RegionAllocKind, Vec<VarId>),
    RegionEnd(VarId),
    RegionParam(VarId),
    CallWithRegion(VarId, String, Vec<VarId>, VarId),
    Await { dst: VarId, value: VarId },
    Spawn { dst: VarId, body: VarId },
    ChanTake { dst: VarId, chan: VarId },
    ChanPut { dst: VarId, chan: VarId, value: VarId },
}

/// How a block ends.
#[derive(Debug)]
pub enum Terminator {
    Return(VarId),
    Jump(BlockId),
    Branch { cond: VarId, then_block: BlockId, else_block: BlockId },
    /// Back to a loop header; the arguments feed its phis by position.
    RecurJump { target: BlockId, args: Vec<VarId> },
    Unreachable,
}

/// A basic block.
#[derive(Debug)]
pub struct Block {
    pub id: BlockId,
    pub phis: Vec<Inst>,
    pub insts: Vec<Inst>,
    pub terminator: Terminator,
}

/// A function; its first block is the entry.
#[derive(Debug)]
pub struct IrFunction {
    pub name: Option<String>,
    pub params: Vec<(String, VarId)>,
    pub blocks: Vec<Block>,
    pub next_var: u32,
    pub next_block: u32,
    pub span: Option<Span>,
    pub subfunctions: Vec<IrFunction>,
    pub is_async: bool,
    /// Representations that type hints ask for.
    pub local_seed_reprs: Vec<(VarId, Repr)>,
    /// The names of globals that are pinned to a commit, as the language's reader tells them.
    pub pins: Vec<String>,
}

impl Inst {
    /// The value that the instruction defines.
    pub open spec fn spec_dst(&self) -> Option<VarId> {
        match *self {
            Inst::Const(d, _) => Some(d),
            Inst::LoadLocal(d, _) => Some(d),
            Inst::LoadGlobal(d, _, _) => Some(d),
            Inst::LoadVar(d, _, _) => Some(d),
            Inst::AllocVector(d, _) => Some(d),
            Inst::AllocMap(d, _) => Some(d),
            Inst::AllocSet(d, _) => Some(d),
            Inst::AllocList(d, _) => Some(d),
            Inst::AllocCons(d, _, _) => Some(d),
            Inst::AllocClosure(d, _, _) => Some(d),
            Inst::CallKnown(d, _, _) => Some(d),
            Inst::Call(d, _, _) => Some(d),
            Inst::CallDirect(d, _, _) => Some(d),
            Inst::Deref(d, _) => Some(d),
            Inst::DefVar(d, _, _, _) => Some(d),
            Inst::SetBang(_, _) => None,
            Inst::Throw(_) => None,
            Inst::Phi(d, _) => Some(d),
            Inst::Recur(_) => None,
            Inst::SourceLoc(_) => None,
            Inst::RegionStart(d) => Some(d),
            Inst::RegionAlloc(d, _, _, _) => Some(d),
            Inst::RegionEnd(_) => None,
            Inst::RegionParam(d) => Some(d),
            Inst::CallWithRegion(d, _, _, _) => Some(d),
            Inst::Await { dst, .. } => Some(dst),
            Inst::Spawn { dst, .. } => Some(dst),
            Inst::ChanTake { dst, .. } => Some(dst),
            Inst::ChanPut { dst, .. } => Some(dst),
        }
    }

    /// The value that the instruction defines, if it defines one.
    pub fn dst(&self) -> (r: Option<VarId>)
        ensures
            r == self.spec_dst(),
    {
        match self {
            Inst::Const(d, _) | Inst::LoadLocal(d, _) | Inst::LoadGlobal(d, _, _)
            | Inst::LoadVar(d, _, _) | Inst::AllocVector(d, _) | Inst::AllocMap(d, _)
            | Inst::AllocSet(d, _) | Inst::AllocList(d, _) | Inst::AllocCons(d, _, _)
            | Inst::AllocClosure(d, _, _) | Inst::CallKnown(d, _, _) | Inst::Call(d, _, _)
            | Inst::CallDirect(d, _, _) | Inst::Deref(d, _) | Inst::DefVar(d, _, _, _)
            | Inst::Phi(d, _) | Inst::RegionStart(d) | Inst::RegionAlloc(d, _, _, _)
            | Inst::RegionParam(d) | Inst::CallWithRegion(d, _, _, _) => Some(*d),
            Inst::Await { dst, .. } | Inst::Spawn { dst, .. } | Inst::ChanTake { dst, .. }
            | Inst::ChanPut { dst, .. } => Some(*dst),
            Inst::SetBang(_, _) | Inst::Throw(_) | Inst::Recur(_) | Inst::SourceLoc(_)
            | Inst::RegionEnd(_) => None,
        }
    }
}

impl Block {
    /// An instruction of the block binds the region parameter.
    pub open spec fn binds_region(&self) -> bool {
        exists|i: int| 0 <= i < self.insts@.len() && (#[trigger] self.insts@[i]) is RegionParam
    }

    fn has_region_param(&self) -> (r: bool)
        ensures
            r == self.binds_region(),
    {
        let mut i: usize = 0;
        while i < self.insts.len()
            invariant
                i <= self.insts@.len(),
                forall|k: int| 0 <= k < i ==> !((#[trigger] self.insts@[k]) is RegionParam),
            decreases self.insts@.len() - i,
        {
            if let Inst::RegionParam(_) = &self.insts[i] {
                return true;
            }
            i += 1;
        }
        false
    }
}

impl IrFunction {
    /// A function without parameters, blocks or values.
    pub fn new(name: Option<String>, span: Option<Span>) -> (r: IrFunction)
        ensures
            r.name == name,
            r.span == span,
            r.params@.len() == 0,
            r.blocks@.len() == 0,
            r.next_var == 0,
            r.next_block == 0,
            r.subfunctions@.len() == 0,
            !r.is_async,
            r.local_seed_reprs@.len() == 0,
            r.pins@.len() == 0,
    {
        IrFunction {
            name,
            params: Vec::new(),
            blocks: Vec::new(),
            next_var: 0,
            next_block: 0,
            span,
            subfunctions: Vec::new(),
            is_async: false,
            local_seed_reprs: Vec::new(),
            pins: Vec::new(),
        }
    }

    /// An instruction of the function binds the region parameter.
    pub open spec fn spec_takes_region_param(&self) -> bool {
        exists|b: int| 0 <= b < self.blocks@.len() && (#[trigger] self.blocks@[b]).binds_region()
    }

    /// The number of parameters that the compiled function takes: those of the function, and the
    /// caller's region where it takes one.
    pub open spec fn spec_abi_param_count(&self) -> nat {
        self.params@.len() + if self.spec_takes_region_param() { 1nat } else { 0nat }
    }

    /// The number of parameters that the compiled function takes.
    pub fn abi_param_count(&self) -> (r: usize)
        requires
            self.params@.len() + 1 <= usize::MAX,
        ensures
            r == self.spec_abi_param_count(),
    {
        if self.takes_region_param() { self.params.len() + 1 } else { self.params.len() }
    }

    /// Whether the function takes the caller's region behind its other parameters.
    pub fn takes_region_param(&self) -> (r: bool)
        ensures
            r == self.spec_takes_region_param(),
    {
        let mut b: usize = 0;
        while b < self.blocks.len()
            invariant
                b <= self.blocks@.len(),
                forall|k: int| 0 <= k < b ==> !(#[trigger] self.blocks@[k]).binds_region(),
            decreases self.blocks@.len() - b,
        {
            if self.blocks[b].has_region_param() {
                return true;
            }
            b += 1;
        }
        false
    }
}

/// The position, from `from` on, of the first block named `id`; the number of blocks where none is.
pub open spec fn first_block(blocks: Seq<Block>, id: BlockId, from: int) -> int
    decreases blocks.len() - from,
{
    if from < 0 || from >= blocks.len() {
        blocks.len() as int
    } else if blocks[from].id == id {
        from
    } else {
        first_block(blocks, id, from + 1)
    }
}

pub proof fn first_block_bounds(blocks: Seq<Block>, id: BlockId, from: int)
    requires
        0 <= from,
    ensures
        0 <= first_block(blocks, id, from),
    decreases blocks.len() - from,
{
    if from < blocks.len() && blocks[from].id != id {
        first_block_bounds(blocks, id, from + 1);
    }
}

/// Finds the first block named `id`.
pub fn find_block(blocks: &Vec<Block>, id: BlockId) -> (r: Option<usize>)
    ensures
        match r {
            Some(i) => i < blocks@.len() && i == first_block(blocks@, id, 0) && blocks@[i as int].id == id,
            None => first_block(blocks@, id, 0) == blocks@.len(),
        },
{
    let mut i: usize = 0;
    while i < blocks.len()
        invariant
            i <= blocks@.len(),
            first_block(blocks@, id, 0) == first_block(blocks@, id, i as int),
        decreases blocks@.len() - i,
    {
        if blocks[i].id == id {
            return Some(i);
        }
        i += 1;
    }
    None
}

/// What a literal is.
pub enum ConstView {
    Nil,
    Bool(bool),
    Long(i64),
    Double(u64),
    Char(char),
    Str(Seq<char>),
    Keyword(Seq<char>),
    Symbol(Seq<char>),
}

impl View for Const {
    type V = ConstView;

    open spec fn view(&self) -> ConstView {
        match *self {
            Const::Nil => ConstView::Nil,
            Const::Bool(b) => ConstView::Bool(b),
            Const::Long(n) => ConstView::Long(n),
            Const::Double(d) => ConstView::Double(d),
            Const::Char(c) => ConstView::Char(c),
            Const::Str(t) => ConstView::Str(t@),
            Const::Keyword(t) => ConstView::Keyword(t@),
            Const::Symbol(t) => ConstView::Symbol(t@),
        }
    }
}

/// An optional text.
pub open spec fn text_opt(t: Option<String>) -> Option<Seq<char>> {
    match t {
        Some(t) => Some(t@),
        None => None,
    }
}

/// A list of texts.
pub open spec fn texts(ts: Seq<String>) -> Seq<Seq<char>> {
    ts.map_values(|t: String| t@)
}

/// What a closure template is.
pub struct TemplateView {
    pub name: Option<Seq<char>>,
    pub arity_fn_names: Seq<Seq<char>>,
    pub param_counts: Seq<usize>,
    pub is_variadic: Seq<bool>,
    pub capture_names: Seq<Seq<char>>,
    pub body_forms: Seq<FormView>,
}

impl View for ClosureTemplate {
    type V = TemplateView;

    open spec fn view(&self) -> TemplateView {
        TemplateView {
            name: text_opt(self.name),
            arity_fn_names: texts(self.arity_fn_names@),
            param_counts: self.param_counts@,
            is_variadic: self.is_variadic@,
            capture_names: texts(self.capture_names@),
            body_forms: form::forms_view(self.body_forms@),
        }
    }
}

/// What a place in a source file is.
pub struct SpanView {
    pub file: Seq<char>,
    pub start: usize,
    pub end: usize,
    pub line: u32,
    pub col: u32,
}

impl View for Span {
    type V = SpanView;

    open spec fn view(&self) -> SpanView {
        SpanView { file: self.file@, start: self.start, end: self.end, line: self.line, col: self.col }
    }
}

/// What an instruction is, with texts and lists as sequences.
pub enum InstView {
    Const(VarId, ConstView),
    LoadLocal(VarId, Seq<char>),
    LoadGlobal(VarId, Seq<char>, Seq<char>),
    LoadVar(VarId, Seq<char>, Seq<char>),
    AllocVector(VarId, Seq<VarId>),
    AllocMap(VarId, Seq<(VarId, VarId)>),
    AllocSet(VarId, Seq<VarId>),
    AllocList(VarId, Seq<VarId>),
    AllocCons(VarId, VarId, VarId),
    AllocClosure(VarId, TemplateView, Seq<VarId>),
    CallKnown(VarId, KnownFn, Seq<VarId>),
    Call(VarId, VarId, Seq<VarId>),
    CallDirect(VarId, Seq<char>, Seq<VarId>),
    Deref(VarId, VarId),
    DefVar(VarId, Seq<char>, Seq<char>, VarId),
    SetBang(VarId, VarId),
    Throw(VarId),
    Phi(VarId, Seq<(BlockId, VarId)>),
    Recur(Seq<VarId>),
    SourceLoc(SpanView),
    RegionStart(VarId),
    RegionAlloc(VarId, VarId, RegionAllocKind, Seq<VarId>),
    RegionEnd(VarId),
    RegionParam(VarId),
    CallWithRegion(VarId, Seq<char>, Seq<VarId>, VarId),
    Await(VarId, VarId),
    Spawn(VarId, VarId),
    ChanTake(VarId, VarId),
    ChanPut(VarId, VarId, VarId),
}

impl View for Inst {
    type V = InstView;

    open spec fn view(&self) -> InstView {
        match *self {
            Inst::Const(d, c) => InstView::Const(d, c@),
            Inst::LoadLocal(d, t) => InstView::LoadLocal(d, t@),
            Inst::LoadGlobal(d, ns, t) => InstView::LoadGlobal(d, ns@, t@),
            Inst::LoadVar(d, ns, t) => InstView::LoadVar(d, ns@, t@),
            Inst::AllocVector(d, vs) => InstView::AllocVector(d, vs@),
            Inst::AllocMap(d, ps) => InstView::AllocMap(d, ps@),
            Inst::AllocSet(d, vs) => InstView::AllocSet(d, vs@),
            Inst::AllocList(d, vs) => InstView::AllocList(d, vs@),
            Inst::AllocCons(d, h, t) => InstView::AllocCons(d, h, t),
            Inst::AllocClosure(d, t, vs) => InstView::AllocClosure(d, t@, vs@),
            Inst::CallKnown(d, kf, vs) => InstView::CallKnown(d, kf, vs@),
            Inst::Call(d, f, vs) => InstView::Call(d, f, vs@),
            Inst::CallDirect(d, t, vs) => InstView::CallDirect(d, t@, vs@),
            Inst::Deref(d, v) => InstView::Deref(d, v),
            Inst::DefVar(d, ns, t, v) => InstView::DefVar(d, ns@, t@, v),
            Inst::SetBang(a, b) => InstView::SetBang(a, b),
            Inst::Throw(v) => InstView::Throw(v),
            Inst::Phi(d, es) => InstView::Phi(d, es@),
            Inst::Recur(vs) => InstView::Recur(vs@),
            Inst::SourceLoc(s) => InstView::SourceLoc(s@),
            Inst::RegionStart(d) => InstView::RegionStart(d),
            Inst::RegionAlloc(d, r, k, vs) => InstView::RegionAlloc(d, r, k, vs@),
            Inst::RegionEnd(r) => InstView::RegionEnd(r),
            Inst::RegionParam(d) => InstView::RegionParam(d),
            Inst::CallWithRegion(d, t, vs, r) => InstView::CallWithRegion(d, t@, vs@, r),
            Inst::Await { dst, value } => InstView::Await(dst, value),
            Inst::Spawn { dst, body } => InstView::Spawn(dst, body),
            Inst::ChanTake { dst, chan } => InstView::ChanTake(dst, chan),
            Inst::ChanPut { dst, chan, value } => InstView::ChanPut(dst, chan, value),
        }
    }
}

/// What a terminator is.
pub enum TermView {
    Return(VarId),
    Jump(BlockId),
    Branch(VarId, BlockId, BlockId),
    RecurJump(BlockId, Seq<VarId>),
    Unreachable,
}

impl View for Terminator {
    type V = TermView;

    open spec fn view(&self) -> TermView {
        match *self {
            Terminator::Return(v) => TermView::Return(v),
            Terminator::Jump(b) => TermView::Jump(b),
            Terminator::Branch { cond, then_block, else_block } => TermView::Branch(cond, then_block, else_block),
            Terminator::RecurJump { target, args } => TermView::RecurJump(target, args@),
            Terminator::Unreachable => TermView::Unreachable,
        }
    }
}

/// A list of instructions.
pub open spec fn insts_view(insts: Seq<Inst>) -> Seq<InstView> {
    insts.map_values(|i: Inst| i@)
}

/// What a block is.
pub struct BlockView {
    pub id: BlockId,
    pub phis: Seq<InstView>,
    pub insts: Seq<InstView>,
    pub terminator: TermView,
}

impl View for Block {
    type V = BlockView;

    open spec fn view(&self) -> BlockView {
        BlockView {
            id: self.id,
            phis: insts_view(self.phis@),
            insts: insts_view(self.insts@),
            terminator: self.terminator@,
        }
    }
}

/// A list of blocks.
pub open spec fn blocks_view(blocks: Seq<Block>) -> Seq<BlockView> {
    blocks.map_values(|b: Block| b@)
}

/// A list of named values.
pub open spec fn params_view(params: Seq<(String, VarId)>) -> Seq<(Seq<char>, VarId)> {
    params.map_values(|p: (String, VarId)| (p.0@, p.1))
}

/// What a function is.
pub struct FunctionView {
    pub name: Option<Seq<char>>,
    pub params: Seq<(Seq<char>, VarId)>,
    pub blocks: Seq<BlockView>,
    pub next_var: u32,
    pub next_block: u32,
    pub span: Option<SpanView>,
    pub subfunctions: Seq<FunctionView>,
    pub is_async: bool,
    pub local_seed_reprs: Seq<(VarId, Repr)>,
    pub pins: Seq<Seq<char>>,
}

/// A list of texts.
pub open spec fn texts_view(ts: Seq<String>) -> Seq<Seq<char>> {
    ts.map_values(|t: String| t@)
}

/// What a function is.
pub open spec fn function_view(f: IrFunction) -> FunctionView
    decreases f,
{
    FunctionView {
        name: text_opt(f.name),
        params: params_view(f.params@),
        blocks: blocks_view(f.blocks@),
        next_var: f.next_var,
        next_block: f.next_block,
        span: match f.span {
            Some(span) => Some(span@),
            None => None,
        },
        subfunctions: functions_view(f.subfunctions@),
        is_async: f.is_async,
        local_seed_reprs: f.local_seed_reprs@,
        pins: texts_view(f.pins@),
    }
}

/// A list of functions.
pub open spec fn functions_view(fs: Seq<IrFunction>) -> Seq<FunctionView>
    decreases fs,
{
    if fs.len() == 0 {
        Seq::empty()
    } else {
        functions_view(fs.drop_last()).push(function_view(fs.last()))
    }
}

/// The function at a position of a list is the view of the function there.
pub proof fn functions_view_at(fs: Seq<IrFunction>)
    ensures
        functions_view(fs).len() == fs.len(),
        forall|i: int| 0 <= i < fs.len() ==> #[trigger] functions_view(fs)[i] == function_view(fs[i]),
    decreases fs.len(),
{
    if fs.len() > 0 {
        functions_view_at(fs.drop_last());
        assert forall|i: int| 0 <= i < fs.len() implies #[trigger] functions_view(fs)[i] == function_view(fs[i]) by {
            if i < fs.len() - 1 {
                assert(functions_view(fs.drop_last())[i] == function_view(fs.drop_last()[i]));
            }
        }
    }
}

} // verus!
