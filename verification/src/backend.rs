//! The code generator: what can be asked of it, and the calls that ask.
//!
//! A function is built by requests.  Each names the entities that earlier requests made by their
//! numbers, so the whole of what a builder has been asked is a sequence of plain values.  What a
//! request demands of the requests before it is stated here; the calls below are made only where
//! it holds.
use crate::bridge::ClifTy;
use crate::clif::{Arith, FloatCond, IntCond};
use cranelift_codegen::ir::condcodes::{FloatCC, IntCC};
use cranelift_codegen::ir::immediates::Ieee64;
use cranelift_codegen::ir::types;
use cranelift_codegen::ir::{AbiParam, Block, BlockArg, FuncRef, GlobalValue, InstBuilder, MemFlags, StackSlot, StackSlotData, StackSlotKind, UserFuncName, Value};
use cranelift_codegen::isa::CallConv;
use cranelift_codegen::Context;
use cranelift_frontend::{FunctionBuilder, FunctionBuilderContext, Variable};
use cranelift_module::{DataDescription, DataId, FuncId, Linkage, Module, ModuleError};
use cranelift_codegen::settings;
use cranelift_codegen::settings::Configurable;
use cranelift_object::{ObjectBuilder, ObjectModule};
use vstd::prelude::*;

verus! {

/// `cranelift_module::ModuleError`: why a module refused a declaration or a definition.
#[verifier::external_type_specification]
#[verifier::external_body]
pub struct ExModuleError(cranelift_module::ModuleError);

/// `cranelift_object::ObjectModule`: the object file under construction.
#[verifier::external_type_specification]
#[verifier::external_body]
pub struct ExObjectModule(cranelift_object::ObjectModule);

/// `cranelift_codegen::Context`: a function and what compiling it needs.
#[verifier::external_type_specification]
#[verifier::external_body]
pub struct ExContext(cranelift_codegen::Context);

/// `cranelift_frontend::FunctionBuilderContext`: the scratch space of a builder.
#[verifier::external_type_specification]
#[verifier::external_body]
pub struct ExFunctionBuilderContext(cranelift_frontend::FunctionBuilderContext);

/// `cranelift_frontend::FunctionBuilder`: a function under construction.
#[verifier::external_type_specification]
#[verifier::external_body]
pub struct ExFunctionBuilder<'a>(cranelift_frontend::FunctionBuilder<'a>);

/// A machine type.
#[derive(Clone, Copy, Debug, PartialEq, Eq, Structural)]
pub enum MachTy {
    I64,
    I32,
    I8,
    F64,
}

/// The machine type behind a type of the bridge, where pointers have 64 bits or else 32.
pub open spec fn machine_ty(ty: ClifTy, wide: bool) -> MachTy {
    match ty {
        ClifTy::Ptr => if wide { MachTy::I64 } else { MachTy::I32 },
        ClifTy::I64 => MachTy::I64,
        ClifTy::I32 => MachTy::I32,
        ClifTy::I8 => MachTy::I8,
        ClifTy::F64 => MachTy::F64,
    }
}

/// A function that a module knows.
pub struct FuncDecl {
    pub name: Seq<char>,
    pub params: Seq<MachTy>,
    pub result: Option<MachTy>,
    /// It is called by the System V convention.
    pub system_v: bool,
    /// It can be defined in this module.
    pub definable: bool,
}

/// What a module was made with.
pub struct Origin {
    pub name: Seq<char>,
    pub opt_level: Seq<char>,
    /// The code can stand anywhere in memory.
    pub pic: bool,
    /// The host calls functions by the System V convention.
    pub system_v: bool,
}

/// What a data object holds.
pub enum DataInit {
    Missing,
    /// The UTF-8 bytes of a text.
    Text(Seq<char>),
    Zeros(nat),
}

/// A data object that a module knows.
pub struct DataDecl {
    pub writable: bool,
    pub init: DataInit,
}

/// A request, with what it made.
#[allow(inconsistent_fields)]
pub enum Request {
    Block { made: u32 },
    Switch { block: u32 },
    FunctionParams { block: u32, types: Seq<MachTy>, made: Seq<u32> },
    AppendParam { block: u32, ty: MachTy, made: u32 },
    Declare { ty: MachTy, made: u32 },
    Define { var: u32, value: u32 },
    Use { var: u32, ty: MachTy, made: u32 },
    Iconst { ty: MachTy, value: i64, made: u32 },
    F64const { bits: u64, made: u32 },
    Binary { op: Arith, a: u32, b: u32, made: u32 },
    IntTest { cond: IntCond, a: u32, b: u32, made: u32 },
    IntTestImm { cond: IntCond, a: u32, imm: i64, made: u32 },
    FloatTest { cond: FloatCond, a: u32, b: u32, made: u32 },
    FromInt { a: u32, made: u32 },
    ImportFunc { func: u32, result: Option<MachTy>, made: u32 },
    Call { callee: u32, args: Seq<u32>, result: Option<MachTy>, made: Seq<u32> },
    FuncAddr { callee: u32, ty: MachTy, made: u32 },
    Slot { bytes: u32, align_shift: u8, made: u32 },
    Store { value: u32, slot: u32, offset: i32 },
    SlotAddr { slot: u32, ty: MachTy, made: u32 },
    ImportData { data: u32, made: u32 },
    DataAddr { global: u32, ty: MachTy, made: u32 },
    Load { ty: MachTy, address: u32, made: u32 },
    Branch { cond: u32, then_block: u32, then_args: Seq<u32>, else_block: u32, else_args: Seq<u32> },
    Jump { block: u32, args: Seq<u32> },
    Return { value: u32 },
    Seal,
}

/// The request ends the block that it stands in.
pub open spec fn is_terminator(r: Request) -> bool {
    r is Branch || r is Jump || r is Return
}

/// The request adds to the block that it stands in.
pub open spec fn is_instruction(r: Request) -> bool {
    match r {
        Request::Block { .. } => false,
        Request::Switch { .. } => false,
        Request::FunctionParams { .. } => false,
        Request::AppendParam { .. } => false,
        Request::Declare { .. } => false,
        Request::Define { .. } => false,
        Request::ImportFunc { .. } => false,
        Request::Slot { .. } => false,
        Request::ImportData { .. } => false,
        Request::Seal => false,
        _ => true,
    }
}

/// The operands of an arithmetic instruction, and its result.
pub open spec fn arith_ty(op: Arith) -> MachTy {
    match op {
        Arith::Iadd => MachTy::I64,
        Arith::Isub => MachTy::I64,
        Arith::Imul => MachTy::I64,
        Arith::Smulhi => MachTy::I64,
        _ => MachTy::F64,
    }
}

/// `v` is one of the parameters `made`, and its type is `ty`.
pub open spec fn is_param(types: Seq<MachTy>, made: Seq<u32>, v: u32, ty: MachTy) -> bool {
    exists|i: int| 0 <= i < made.len() && i < types.len() && #[trigger] made[i] == v && types[i] == ty
}

/// The request made the value `v` of type `ty`.
pub open spec fn makes_value(r: Request, v: u32, ty: MachTy) -> bool {
    match r {
        Request::FunctionParams { types, made, .. } => is_param(types, made, v, ty),
        Request::AppendParam { ty: t, made, .. } => made == v && t == ty,
        Request::Use { ty: t, made, .. } => made == v && t == ty,
        Request::Iconst { ty: t, made, .. } => made == v && t == ty,
        Request::F64const { made, .. } => made == v && ty == MachTy::F64,
        Request::Binary { op, made, .. } => made == v && ty == arith_ty(op),
        Request::IntTest { made, .. } => made == v && ty == MachTy::I8,
        Request::IntTestImm { made, .. } => made == v && ty == MachTy::I8,
        Request::FloatTest { made, .. } => made == v && ty == MachTy::I8,
        Request::FromInt { made, .. } => made == v && ty == MachTy::F64,
        Request::Call { result, made, .. } => made.len() == 1 && made[0] == v && result == Some(ty),
        Request::FuncAddr { ty: t, made, .. } => made == v && t == ty,
        Request::SlotAddr { ty: t, made, .. } => made == v && t == ty,
        Request::DataAddr { ty: t, made, .. } => made == v && t == ty,
        Request::Load { ty: t, made, .. } => made == v && t == ty,
        _ => false,
    }
}

/// `v` is a value of type `ty`.
pub open spec fn is_value(h: Seq<Request>, v: u32, ty: MachTy) -> bool {
    exists|k: int| 0 <= k < h.len() && makes_value(#[trigger] h[k], v, ty)
}

/// `v` is a value.
pub open spec fn is_some_value(h: Seq<Request>, v: u32) -> bool {
    exists|ty: MachTy| #[trigger] is_value(h, v, ty)
}

/// All of `vs` are values.
pub open spec fn are_values(h: Seq<Request>, vs: Seq<u32>) -> bool {
    forall|i: int| 0 <= i < vs.len() ==> is_some_value(h, #[trigger] vs[i])
}

/// `b` is a block.
pub open spec fn is_block(h: Seq<Request>, b: u32) -> bool {
    h.contains(Request::Block { made: b })
}

/// `x` is a variable of type `ty`.
pub open spec fn is_variable(h: Seq<Request>, x: u32, ty: MachTy) -> bool {
    h.contains(Request::Declare { ty, made: x })
}

/// `f` is a function with this result.
pub open spec fn is_function(h: Seq<Request>, f: u32, result: Option<MachTy>) -> bool {
    exists|id: u32| h.contains(Request::ImportFunc { func: id, result, made: f })
}

/// `s` is a stack slot.
pub open spec fn is_slot(h: Seq<Request>, s: u32) -> bool {
    exists|bytes: u32, align_shift: u8| h.contains(Request::Slot { bytes, align_shift, made: s })
}

/// `g` is a reference to a data object.
pub open spec fn is_global(h: Seq<Request>, g: u32) -> bool {
    exists|data: u32| h.contains(Request::ImportData { data, made: g })
}

/// The block that instructions go to.
pub open spec fn place(h: Seq<Request>) -> Option<u32>
    decreases h.len(),
{
    if h.len() == 0 {
        None
    } else {
        match h.last() {
            Request::Switch { block } => Some(block),
            _ => place(h.drop_last()),
        }
    }
}

/// Block `b` has an instruction.
pub open spec fn touched(h: Seq<Request>, b: u32) -> bool
    decreases h.len(),
{
    h.len() > 0 && (touched(h.drop_last(), b) || (is_instruction(h.last()) && place(h.drop_last()) == Some(b)))
}

/// Block `b` has come to its end.
pub open spec fn filled(h: Seq<Request>, b: u32) -> bool
    decreases h.len(),
{
    h.len() > 0 && (filled(h.drop_last(), b) || (is_terminator(h.last()) && place(h.drop_last()) == Some(b)))
}

/// The predecessors of the blocks have been declared complete.
pub open spec fn is_sealed(h: Seq<Request>) -> bool {
    h.contains(Request::Seal)
}

/// There is a block to add to, and it has not come to its end.
pub open spec fn can_add(h: Seq<Request>) -> bool {
    !is_sealed(h) && match place(h) {
        Some(b) => !filled(h, b),
        None => false,
    }
}

/// Instructions may go to block `b` next.
pub open spec fn can_switch(h: Seq<Request>, b: u32) -> bool {
    is_block(h, b) && !is_sealed(h) && !filled(h, b) && match place(h) {
        Some(at) => touched(h, at) ==> filled(h, at),
        None => true,
    }
}

/// Nothing has been asked but for blocks.
pub open spec fn only_blocks(h: Seq<Request>) -> bool {
    forall|k: int| 0 <= k < h.len() ==> (#[trigger] h[k]) is Block || h[k] is Switch
}

/// The function is complete: sealed, every block with an instruction has come to its end, and so
/// has the one that instructions went to last, so there is such a block.
pub open spec fn is_complete(h: Seq<Request>) -> bool {
    &&& is_sealed(h)
    &&& forall|b: u32| touched(h, b) ==> #[trigger] filled(h, b)
    &&& match place(h) {
        Some(b) => filled(h, b),
        None => false,
    }
}

/// The most bytes that the stack slots of a function can take.
pub const MAX_FRAME: u32 = 0x6000_0000;

/// No value is stored as far as this from the start of a stack slot.  Together with the frame it stays
/// below what an offset from the stack pointer can be.
pub const MAX_OFFSET: u32 = 0x1000_0000;

/// The bytes that a stack slot takes, with what aligning it may cost.
pub open spec fn room(r: Request) -> nat {
    match r {
        Request::Slot { bytes, .. } => bytes as nat + 16,
        _ => 0,
    }
}

/// The bytes that the stack slots take.
pub open spec fn frame(h: Seq<Request>) -> nat
    decreases h.len(),
{
    if h.len() == 0 { 0 } else { frame(h.drop_last()) + room(h.last()) }
}

/// The most parameters that a block can have.
pub const MAX_PARAMS: u32 = 0xffff;

/// The variables that have been read or given a value since instructions went to this block.
pub open spec fn at_hand(h: Seq<Request>) -> Set<u32>
    decreases h.len(),
{
    if h.len() == 0 {
        Set::empty()
    } else {
        match h.last() {
            Request::Switch { .. } => Set::empty(),
            Request::Define { var, .. } => at_hand(h.drop_last()).insert(var),
            Request::Use { var, .. } => at_hand(h.drop_last()).insert(var),
            _ => at_hand(h.drop_last()),
        }
    }
}

/// The variables that have been read in a block that gave them no value.  Such a variable is handed on
/// from block to block, and can be one more parameter of each.
pub open spec fn handed_on(h: Seq<Request>) -> Set<u32>
    decreases h.len(),
{
    if h.len() == 0 {
        Set::empty()
    } else {
        match h.last() {
            Request::Use { var, .. } => if at_hand(h.drop_last()).contains(var) { handed_on(h.drop_last()) } else { handed_on(h.drop_last()).insert(var) },
            _ => handed_on(h.drop_last()),
        }
    }
}

/// One where the request is the first to read a variable that has to be handed on.
pub open spec fn weight(h: Seq<Request>, r: Request) -> nat {
    match r {
        Request::Use { var, .. } => if at_hand(h).contains(var) || handed_on(h).contains(var) { 0 } else { 1 },
        _ => 0,
    }
}

/// How many variables have to be handed on.
pub open spec fn spread(h: Seq<Request>) -> nat
    decreases h.len(),
{
    if h.len() == 0 { 0 } else { spread(h.drop_last()) + weight(h.drop_last(), h.last()) }
}

/// How many parameters a request gives to block `b`.
pub open spec fn gift(r: Request, b: u32) -> nat {
    match r {
        Request::FunctionParams { block, types, .. } => if block == b { types.len() } else { 0 },
        Request::AppendParam { block, .. } => if block == b { 1 } else { 0 },
        _ => 0,
    }
}

/// How many parameters block `b` has been given.
pub open spec fn own(h: Seq<Request>, b: u32) -> nat
    decreases h.len(),
{
    if h.len() == 0 { 0 } else { own(h.drop_last(), b) + gift(h.last(), b) }
}

/// The module knows what the request refers to.
pub open spec fn is_resolved(r: Request, funcs: Map<u32, FuncDecl>, data: Map<u32, DataDecl>) -> bool {
    match r {
        Request::ImportFunc { func, .. } => funcs.contains_key(func),
        Request::ImportData { data: id, .. } => data.contains_key(id),
        _ => true,
    }
}

/// The module knows all functions and data objects that the requests refer to.
pub open spec fn all_resolved(h: Seq<Request>, funcs: Map<u32, FuncDecl>, data: Map<u32, DataDecl>) -> bool {
    forall|k: int| 0 <= k < h.len() ==> is_resolved(#[trigger] h[k], funcs, data)
}

/// What a builder has been asked so far.
pub uninterp spec fn requests(b: FunctionBuilder<'_>) -> Seq<Request>;

/// What a builder will have been asked when it is done.
pub uninterp spec fn outcome(b: FunctionBuilder<'_>) -> Seq<Request>;

/// The types of the parameters of the function that a builder builds.
pub uninterp spec fn built_params(b: FunctionBuilder<'_>) -> Seq<MachTy>;

/// What the function in a context was built by.
pub uninterp spec fn body(ctx: Context) -> Seq<Request>;

/// The types of the parameters of the function in a context.
pub uninterp spec fn body_params(ctx: Context) -> Seq<MachTy>;

/// The scratch space is not in use.
pub uninterp spec fn is_idle(scratch: FunctionBuilderContext) -> bool;

/// The functions that a module knows, by number.
pub uninterp spec fn functions(m: ObjectModule) -> Map<u32, FuncDecl>;

/// The data objects that a module knows, by number.
pub uninterp spec fn data_objects(m: ObjectModule) -> Map<u32, DataDecl>;

/// The functions that a module has a definition of, by number, each as what it was built by.
pub uninterp spec fn bodies(m: ObjectModule) -> Map<u32, Seq<Request>>;

/// What `new_module` made a module with that nothing but the calls here has changed; nothing for any
/// other module.
pub uninterp spec fn origin(m: ObjectModule) -> Option<Origin>;

/// The sizes in bytes of the definitions that a module has, by the numbers of the functions.
pub uninterp spec fn code_sizes(m: ObjectModule) -> Map<u32, u32>;

/// The code generator of the module takes the function in a context as what function `id` is to be.
pub uninterp spec fn accepts(m: ObjectModule, id: u32, ctx: Context) -> bool;

/// The size in bytes of the machine code in a context, or zero where there is none.
pub uninterp spec fn compiled_size(ctx: Context) -> u32;

/// The bytes of the object file that a module comes to, or nothing where it comes to none.
pub uninterp spec fn object_file(m: ObjectModule) -> Option<Seq<u8>>;

/// One more request has been made, and nothing else has changed.
pub open spec fn asked(before: FunctionBuilder<'_>, after: FunctionBuilder<'_>, r: Request) -> bool {
    requests(after) == requests(before).push(r) && outcome(after) == outcome(before) && built_params(after) == built_params(before)
}

/// The module knows the same functions and data, with the same definitions.
pub open spec fn same_module(before: ObjectModule, after: ObjectModule) -> bool {
    functions(after) == functions(before) && data_objects(after) == data_objects(before) && bodies(after) == bodies(before) && origin(after) == origin(before)
}

/// A function of the module is called by the System V convention: it was asked for, or it is the
/// host's own.
pub open spec fn convention(m: ObjectModule, system_v: bool) -> bool {
    system_v || match origin(m) {
        Some(o) => o.system_v,
        None => false,
    }
}

/// The function is another one, or it has this signature.
pub open spec fn agrees(f: FuncDecl, name: Seq<char>, params: Seq<MachTy>, result: Option<MachTy>, system_v: bool) -> bool {
    f.name == name ==> f.params == params && f.result == result && f.system_v == system_v
}

/// A function can be declared: its name has no zero byte, and nothing of that name is known with
/// another signature.
pub open spec fn is_free(funcs: Map<u32, FuncDecl>, name: Seq<char>, params: Seq<MachTy>, result: Option<MachTy>, system_v: bool) -> bool {
    !name.contains('\0') && forall|k: u32| #[trigger] funcs.contains_key(k) ==> agrees(funcs[k], name, params, result, system_v)
}

/// The two are the same function, but for whether it can be defined.
pub open spec fn same_signature(a: FuncDecl, b: FuncDecl) -> bool {
    a.name == b.name && a.params == b.params && a.result == b.result && a.system_v == b.system_v
}

/// The machine type behind a type of the bridge.
pub fn machine(ty: ClifTy, wide: bool) -> (r: MachTy)
    ensures
        r == machine_ty(ty, wide),
{
    match ty {
        ClifTy::Ptr => if wide { MachTy::I64 } else { MachTy::I32 },
        ClifTy::I64 => MachTy::I64,
        ClifTy::I32 => MachTy::I32,
        ClifTy::I8 => MachTy::I8,
        ClifTy::F64 => MachTy::F64,
    }
}

/// `FunctionBuilderContext::new`: empty scratch space.
#[verifier::external_body]
pub(crate) fn new_scratch() -> (r: FunctionBuilderContext)
    ensures
        is_idle(r),
{
    FunctionBuilderContext::new()
}

/// `Module::make_context`, with the signature of function `id` from
/// `ModuleDeclarations::get_function_decl` and its name: an empty function with the parameters
/// that were declared.
#[verifier::external_body]
pub(crate) fn new_context(m: &ObjectModule, id: u32) -> (r: Context)
    requires
        functions(*m).contains_key(id),
    ensures
        body(r) == Seq::<Request>::empty(),
        body_params(r) == functions(*m)[id].params,
{
    let mut ctx = m.make_context();
    ctx.func.signature = m.declarations().get_function_decl(FuncId::from_u32(id)).signature.clone();
    ctx.func.name = UserFuncName::user(0, id);
    ctx
}

/// `FunctionBuilder::new`: a builder for the function in `ctx`, of which nothing has been asked.
/// The function that is in `ctx` when the borrow ends is what the builder was asked for by the
/// time that it was done.
#[verifier::external_body]
pub(crate) fn new_builder<'a>(ctx: &'a mut Context, scratch: &'a mut FunctionBuilderContext) -> (b: FunctionBuilder<'a>)
    requires
        body(*old(ctx)) == Seq::<Request>::empty(),
        is_idle(*old(scratch)),
    ensures
        requests(b) == Seq::<Request>::empty(),
        built_params(b) == body_params(*old(ctx)),
        body(*final(ctx)) == outcome(b),
        body_params(*final(ctx)) == body_params(*old(ctx)),
{
    FunctionBuilder::new(&mut ctx.func, scratch)
}

/// `FunctionBuilder::finalize`: the builder is done, so what it has been asked is what it will
/// have been asked.
#[verifier::external_body]
pub(crate) fn finalize(b: FunctionBuilder<'_>) -> (r: Ghost<Seq<Request>>)
    requires
        is_complete(requests(b)),
    ensures
        r@ == requests(b),
        r@ == outcome(b),
{
    b.finalize();
    Ghost(Seq::empty())
}

/// `FunctionBuilder::create_block`: a block that was not there before.
#[verifier::external_body]
pub(crate) fn create_block(b: &mut FunctionBuilder<'_>) -> (r: u32)
    requires
        !is_sealed(requests(*old(b))),
    ensures
        asked(*old(b), *final(b), Request::Block { made: r }),
        !is_block(requests(*old(b)), r),
{
    b.create_block().as_u32()
}

/// `FunctionBuilder::switch_to_block`: instructions go to `block` from here on.
#[verifier::external_body]
pub(crate) fn switch_to_block(b: &mut FunctionBuilder<'_>, block: u32)
    requires
        can_switch(requests(*old(b)), block),
    ensures
        asked(*old(b), *final(b), Request::Switch { block }),
{
    b.switch_to_block(Block::from_u32(block));
}

/// `FunctionBuilder::append_block_params_for_function_params`, and the parameters of the block
/// from `FunctionBuilder::block_params`: one value for each parameter of the function.
#[verifier::external_body]
pub(crate) fn function_params(b: &mut FunctionBuilder<'_>, block: u32) -> (r: Vec<u32>)
    requires
        is_block(requests(*old(b)), block),
        only_blocks(requests(*old(b))),
        built_params(*old(b)).len() <= MAX_PARAMS,
    ensures
        asked(*old(b), *final(b), Request::FunctionParams { block, types: built_params(*old(b)), made: r@ }),
        r@.len() == built_params(*old(b)).len(),
{
    b.append_block_params_for_function_params(Block::from_u32(block));
    b.block_params(Block::from_u32(block)).iter().map(|v| v.as_u32()).collect()
}

/// `FunctionBuilder::append_block_param`: one more parameter of a block that has no instruction.
#[verifier::external_body]
pub(crate) fn append_block_param(b: &mut FunctionBuilder<'_>, block: u32, ty: MachTy) -> (r: u32)
    requires
        is_block(requests(*old(b)), block),
        !touched(requests(*old(b)), block),
        !is_sealed(requests(*old(b))),
        own(requests(*old(b)), block) < MAX_PARAMS,
    ensures
        asked(*old(b), *final(b), Request::AppendParam { block, ty, made: r }),
{
    let t = match ty {
        MachTy::I64 => types::I64,
        MachTy::I32 => types::I32,
        MachTy::I8 => types::I8,
        MachTy::F64 => types::F64,
    };
    b.append_block_param(Block::from_u32(block), t).as_u32()
}

/// `FunctionBuilder::declare_var`: a variable of type `ty`, which was not there before.
#[verifier::external_body]
pub(crate) fn declare_var(b: &mut FunctionBuilder<'_>, ty: MachTy) -> (r: u32)
    ensures
        asked(*old(b), *final(b), Request::Declare { ty, made: r }),
        forall|t: MachTy| !is_variable(requests(*old(b)), r, t),
{
    let t = match ty {
        MachTy::I64 => types::I64,
        MachTy::I32 => types::I32,
        MachTy::I8 => types::I8,
        MachTy::F64 => types::F64,
    };
    b.declare_var(t).as_u32()
}

/// `FunctionBuilder::def_var`: the variable holds the value from here on.
#[verifier::external_body]
pub(crate) fn def_var(b: &mut FunctionBuilder<'_>, var: u32, value: u32)
    requires
        exists|ty: MachTy| is_variable(requests(*old(b)), var, ty) && #[trigger] is_value(requests(*old(b)), value, ty),
        place(requests(*old(b))) is Some,
    ensures
        asked(*old(b), *final(b), Request::Define { var, value }),
{
    b.def_var(Variable::from_u32(var), Value::from_u32(value));
}

/// `FunctionBuilder::use_var`: the value of a variable of type `ty` at this place, which may make it a
/// parameter of blocks.
#[verifier::external_body]
pub(crate) fn use_var(b: &mut FunctionBuilder<'_>, var: u32, ty: MachTy) -> (r: u32)
    requires
        is_variable(requests(*old(b)), var, ty),
        can_add(requests(*old(b))),
        forall|block: u32| #[trigger] own(requests(*old(b)), block) + spread(requests(*old(b))) + weight(requests(*old(b)), Request::Use { var, ty, made: 0 }) <= MAX_PARAMS,
    ensures
        asked(*old(b), *final(b), Request::Use { var, ty, made: r }),
{
    let _ = ty;
    b.use_var(Variable::from_u32(var)).as_u32()
}

/// `InstBuilder::iconst`: an integer constant.
#[verifier::external_body]
pub(crate) fn iconst(b: &mut FunctionBuilder<'_>, ty: MachTy, value: i64) -> (r: u32)
    requires
        can_add(requests(*old(b))),
    ensures
        asked(*old(b), *final(b), Request::Iconst { ty, value, made: r }),
{
    let t = match ty {
        MachTy::I64 => types::I64,
        MachTy::I32 => types::I32,
        MachTy::I8 => types::I8,
        MachTy::F64 => types::F64,
    };
    b.ins().iconst(t, value).as_u32()
}

/// `InstBuilder::f64const`: a double, by its bit pattern.
#[verifier::external_body]
pub(crate) fn f64const(b: &mut FunctionBuilder<'_>, bits: u64) -> (r: u32)
    requires
        can_add(requests(*old(b))),
    ensures
        asked(*old(b), *final(b), Request::F64const { bits, made: r }),
{
    b.ins().f64const(Ieee64::with_bits(bits)).as_u32()
}

/// `InstBuilder::{iadd, isub, imul, smulhi, fadd, fsub, fmul, fdiv}`: arithmetic on two values of the
/// type that the instruction is for; the result has that type too.
#[verifier::external_body]
pub(crate) fn binary(b: &mut FunctionBuilder<'_>, op: Arith, x: u32, y: u32) -> (r: u32)
    requires
        can_add(requests(*old(b))),
        is_value(requests(*old(b)), x, arith_ty(op)),
        is_value(requests(*old(b)), y, arith_ty(op)),
    ensures
        asked(*old(b), *final(b), Request::Binary { op, a: x, b: y, made: r }),
{
    let (v, w) = (Value::from_u32(x), Value::from_u32(y));
    match op {
        Arith::Iadd => b.ins().iadd(v, w).as_u32(),
        Arith::Isub => b.ins().isub(v, w).as_u32(),
        Arith::Imul => b.ins().imul(v, w).as_u32(),
        Arith::Smulhi => b.ins().smulhi(v, w).as_u32(),
        Arith::Fadd => b.ins().fadd(v, w).as_u32(),
        Arith::Fsub => b.ins().fsub(v, w).as_u32(),
        Arith::Fmul => b.ins().fmul(v, w).as_u32(),
        Arith::Fdiv => b.ins().fdiv(v, w).as_u32(),
    }
}

/// `InstBuilder::icmp`: a condition on two integers of one type, as a value of 8 bits.
#[verifier::external_body]
pub(crate) fn int_test(b: &mut FunctionBuilder<'_>, cond: IntCond, x: u32, y: u32) -> (r: u32)
    requires
        can_add(requests(*old(b))),
        exists|ty: MachTy| ty != MachTy::F64 && is_value(requests(*old(b)), x, ty) && #[trigger] is_value(requests(*old(b)), y, ty),
    ensures
        asked(*old(b), *final(b), Request::IntTest { cond, a: x, b: y, made: r }),
{
    let cc = match cond {
        IntCond::Equal => IntCC::Equal,
        IntCond::SignedLessThan => IntCC::SignedLessThan,
        IntCond::SignedGreaterThan => IntCC::SignedGreaterThan,
        IntCond::SignedLessThanOrEqual => IntCC::SignedLessThanOrEqual,
        IntCond::SignedGreaterThanOrEqual => IntCC::SignedGreaterThanOrEqual,
    };
    b.ins().icmp(cc, Value::from_u32(x), Value::from_u32(y)).as_u32()
}

/// `InstBuilder::icmp_imm`: a condition on an integer and a constant, as a value of 8 bits.
#[verifier::external_body]
pub(crate) fn int_test_imm(b: &mut FunctionBuilder<'_>, cond: IntCond, x: u32, imm: i64) -> (r: u32)
    requires
        can_add(requests(*old(b))),
        exists|ty: MachTy| ty != MachTy::F64 && #[trigger] is_value(requests(*old(b)), x, ty),
    ensures
        asked(*old(b), *final(b), Request::IntTestImm { cond, a: x, imm, made: r }),
{
    let cc = match cond {
        IntCond::Equal => IntCC::Equal,
        IntCond::SignedLessThan => IntCC::SignedLessThan,
        IntCond::SignedGreaterThan => IntCC::SignedGreaterThan,
        IntCond::SignedLessThanOrEqual => IntCC::SignedLessThanOrEqual,
        IntCond::SignedGreaterThanOrEqual => IntCC::SignedGreaterThanOrEqual,
    };
    b.ins().icmp_imm(cc, Value::from_u32(x), imm).as_u32()
}

/// `InstBuilder::fcmp`: an ordered condition on two doubles, as a value of 8 bits.
#[verifier::external_body]
pub(crate) fn float_test(b: &mut FunctionBuilder<'_>, cond: FloatCond, x: u32, y: u32) -> (r: u32)
    requires
        can_add(requests(*old(b))),
        is_value(requests(*old(b)), x, MachTy::F64),
        is_value(requests(*old(b)), y, MachTy::F64),
    ensures
        asked(*old(b), *final(b), Request::FloatTest { cond, a: x, b: y, made: r }),
{
    let cc = match cond {
        FloatCond::LessThan => FloatCC::LessThan,
        FloatCond::GreaterThan => FloatCC::GreaterThan,
        FloatCond::LessThanOrEqual => FloatCC::LessThanOrEqual,
        FloatCond::GreaterThanOrEqual => FloatCC::GreaterThanOrEqual,
    };
    b.ins().fcmp(cc, Value::from_u32(x), Value::from_u32(y)).as_u32()
}

/// `InstBuilder::fcvt_from_sint`: a signed integer as a double.
#[verifier::external_body]
pub(crate) fn fcvt_from_sint(b: &mut FunctionBuilder<'_>, x: u32) -> (r: u32)
    requires
        can_add(requests(*old(b))),
        is_value(requests(*old(b)), x, MachTy::I64),
    ensures
        asked(*old(b), *final(b), Request::FromInt { a: x, made: r }),
{
    b.ins().fcvt_from_sint(types::F64, Value::from_u32(x)).as_u32()
}

/// `Module::declare_func_in_func`: a reference to a function of the module.
#[verifier::external_body]
pub(crate) fn import_func(m: &mut ObjectModule, b: &mut FunctionBuilder<'_>, func: u32) -> (r: u32)
    requires
        functions(*old(m)).contains_key(func),
    ensures
        asked(*old(b), *final(b), Request::ImportFunc { func, result: functions(*old(m))[func].result, made: r }),
        same_module(*old(m), *final(m)),
{
    m.declare_func_in_func(FuncId::from_u32(func), b.func).as_u32()
}

/// `InstBuilder::call`, and the results of the call from `FunctionBuilder::inst_results`: none,
/// or one where the function has a result.
#[verifier::external_body]
pub(crate) fn call(b: &mut FunctionBuilder<'_>, callee: u32, args: &Vec<u32>, result: Option<MachTy>) -> (r: Vec<u32>)
    requires
        can_add(requests(*old(b))),
        is_function(requests(*old(b)), callee, result),
        are_values(requests(*old(b)), args@),
    ensures
        asked(*old(b), *final(b), Request::Call { callee, args: args@, result, made: r@ }),
        r@.len() == (if result is Some { 1nat } else { 0nat }),
{
    let _ = result;
    let values: Vec<Value> = args.iter().map(|v| Value::from_u32(*v)).collect();
    let inst = b.ins().call(FuncRef::from_u32(callee), &values);
    b.inst_results(inst).iter().map(|v| v.as_u32()).collect()
}

/// `InstBuilder::func_addr`: the address of a function.
#[verifier::external_body]
pub(crate) fn func_addr(b: &mut FunctionBuilder<'_>, ty: MachTy, callee: u32) -> (r: u32)
    requires
        can_add(requests(*old(b))),
        exists|result: Option<MachTy>| #[trigger] is_function(requests(*old(b)), callee, result),
    ensures
        asked(*old(b), *final(b), Request::FuncAddr { callee, ty, made: r }),
{
    let t = match ty {
        MachTy::I64 => types::I64,
        MachTy::I32 => types::I32,
        MachTy::I8 => types::I8,
        MachTy::F64 => types::F64,
    };
    b.ins().func_addr(t, FuncRef::from_u32(callee)).as_u32()
}

/// `FunctionBuilder::create_sized_stack_slot`: a stack slot of `bytes` bytes, at an address with at
/// least `align_shift` trailing zero bits.
#[verifier::external_body]
pub(crate) fn create_slot(b: &mut FunctionBuilder<'_>, bytes: u32, align_shift: u8) -> (r: u32)
    requires
        align_shift <= 4,
    ensures
        asked(*old(b), *final(b), Request::Slot { bytes, align_shift, made: r }),
{
    b.create_sized_stack_slot(StackSlotData::new(StackSlotKind::ExplicitSlot, bytes, align_shift)).as_u32()
}

/// `InstBuilder::stack_store`: stores a value in a stack slot, `offset` bytes from its start.
#[verifier::external_body]
pub(crate) fn stack_store(b: &mut FunctionBuilder<'_>, value: u32, slot: u32, offset: i32)
    requires
        can_add(requests(*old(b))),
        is_some_value(requests(*old(b)), value),
        is_slot(requests(*old(b)), slot),
        0 <= offset < MAX_OFFSET,
    ensures
        asked(*old(b), *final(b), Request::Store { value, slot, offset }),
{
    b.ins().stack_store(Value::from_u32(value), StackSlot::from_u32(slot), offset);
}

/// `InstBuilder::stack_addr`: the address of a stack slot.
#[verifier::external_body]
pub(crate) fn stack_addr(b: &mut FunctionBuilder<'_>, ty: MachTy, slot: u32) -> (r: u32)
    requires
        can_add(requests(*old(b))),
        is_slot(requests(*old(b)), slot),
    ensures
        asked(*old(b), *final(b), Request::SlotAddr { slot, ty, made: r }),
{
    let t = match ty {
        MachTy::I64 => types::I64,
        MachTy::I32 => types::I32,
        MachTy::I8 => types::I8,
        MachTy::F64 => types::F64,
    };
    b.ins().stack_addr(t, StackSlot::from_u32(slot), 0).as_u32()
}

/// `Module::declare_data_in_func`: a reference to a data object of the module.
#[verifier::external_body]
pub(crate) fn import_data(m: &ObjectModule, b: &mut FunctionBuilder<'_>, data: u32) -> (r: u32)
    requires
        data_objects(*m).contains_key(data),
    ensures
        asked(*old(b), *final(b), Request::ImportData { data, made: r }),
{
    m.declare_data_in_func(DataId::from_u32(data), b.func).as_u32()
}

/// `InstBuilder::global_value`: the address of a data object.
#[verifier::external_body]
pub(crate) fn global_value(b: &mut FunctionBuilder<'_>, ty: MachTy, global: u32) -> (r: u32)
    requires
        can_add(requests(*old(b))),
        is_global(requests(*old(b)), global),
    ensures
        asked(*old(b), *final(b), Request::DataAddr { global, ty, made: r }),
{
    let t = match ty {
        MachTy::I64 => types::I64,
        MachTy::I32 => types::I32,
        MachTy::I8 => types::I8,
        MachTy::F64 => types::F64,
    };
    b.ins().global_value(t, GlobalValue::from_u32(global)).as_u32()
}

/// `InstBuilder::load`: what is stored at an address that is known to be good and aligned.
#[verifier::external_body]
pub(crate) fn load(b: &mut FunctionBuilder<'_>, ty: MachTy, address: u32) -> (r: u32)
    requires
        can_add(requests(*old(b))),
        is_some_value(requests(*old(b)), address),
    ensures
        asked(*old(b), *final(b), Request::Load { ty, address, made: r }),
{
    let t = match ty {
        MachTy::I64 => types::I64,
        MachTy::I32 => types::I32,
        MachTy::I8 => types::I8,
        MachTy::F64 => types::F64,
    };
    b.ins().load(t, MemFlags::trusted(), Value::from_u32(address), 0).as_u32()
}

/// `InstBuilder::brif`: to one of two blocks, by whether a value is not zero.
#[verifier::external_body]
pub(crate) fn brif(b: &mut FunctionBuilder<'_>, cond: u32, then_block: u32, then_args: &Vec<u32>, else_block: u32, else_args: &Vec<u32>)
    requires
        can_add(requests(*old(b))),
        is_some_value(requests(*old(b)), cond),
        is_block(requests(*old(b)), then_block),
        is_block(requests(*old(b)), else_block),
        are_values(requests(*old(b)), then_args@),
        are_values(requests(*old(b)), else_args@),
    ensures
        asked(*old(b), *final(b), Request::Branch { cond, then_block, then_args: then_args@, else_block, else_args: else_args@ }),
{
    let xs: Vec<BlockArg> = then_args.iter().map(|v| BlockArg::Value(Value::from_u32(*v))).collect();
    let ys: Vec<BlockArg> = else_args.iter().map(|v| BlockArg::Value(Value::from_u32(*v))).collect();
    b.ins().brif(Value::from_u32(cond), Block::from_u32(then_block), &xs, Block::from_u32(else_block), &ys);
}

/// `InstBuilder::jump`: to a block.
#[verifier::external_body]
pub(crate) fn jump(b: &mut FunctionBuilder<'_>, block: u32, args: &Vec<u32>)
    requires
        can_add(requests(*old(b))),
        is_block(requests(*old(b)), block),
        are_values(requests(*old(b)), args@),
    ensures
        asked(*old(b), *final(b), Request::Jump { block, args: args@ }),
{
    let xs: Vec<BlockArg> = args.iter().map(|v| BlockArg::Value(Value::from_u32(*v))).collect();
    b.ins().jump(Block::from_u32(block), &xs);
}

/// `InstBuilder::return_`: out of the function.
#[verifier::external_body]
pub(crate) fn return_value(b: &mut FunctionBuilder<'_>, value: u32)
    requires
        can_add(requests(*old(b))),
        is_some_value(requests(*old(b)), value),
    ensures
        asked(*old(b), *final(b), Request::Return { value }),
{
    b.ins().return_(&[Value::from_u32(value)]);
}

/// `FunctionBuilder::seal_all_blocks`: every jump has been asked for, and variables that are read in
/// one block and have their value from another become parameters of the blocks between.
#[verifier::external_body]
pub(crate) fn seal_all_blocks(b: &mut FunctionBuilder<'_>)
    requires
        !is_sealed(requests(*old(b))),
        forall|block: u32| #[trigger] own(requests(*old(b)), block) + spread(requests(*old(b))) <= MAX_PARAMS,
    ensures
        asked(*old(b), *final(b), Request::Seal),
{
    b.seal_all_blocks();
}

/// `Module::make_signature` and `Module::declare_function`: the module knows a function of that
/// name with that signature, under a number of its own.  A name that it knows already keeps its
/// number.  It is refused where the name has a zero byte, or is known with another signature, and
/// nowhere else.
#[verifier::external_body]
pub(crate) fn declare_function(m: &mut ObjectModule, name: &str, system_v: bool, params: &Vec<MachTy>, result: Option<MachTy>, export: bool) -> (r: Result<u32, ModuleError>)
    requires
        origin(*old(m)) is Some,
    ensures
        data_objects(*final(m)) == data_objects(*old(m)),
        bodies(*final(m)) == bodies(*old(m)),
        origin(*final(m)) == origin(*old(m)),
        r is Ok <==> is_free(functions(*old(m)), name@, params@, result, convention(*old(m), system_v)),
        match r {
            Ok(id) => {
                &&& functions(*final(m)).contains_key(id)
                &&& functions(*final(m))[id].name == name@
                &&& functions(*final(m))[id].params == params@
                &&& functions(*final(m))[id].result == result
                &&& functions(*final(m))[id].system_v == convention(*old(m), system_v)
                &&& export ==> functions(*final(m))[id].definable
                &&& !export ==> functions(*final(m))[id].definable == (functions(*old(m)).contains_key(id) && functions(*old(m))[id].definable)
                &&& functions(*final(m)).remove(id) == functions(*old(m)).remove(id)
                &&& forall|k: u32| #[trigger] functions(*old(m)).contains_key(k) && functions(*old(m))[k].name == name@ ==> k == id
            },
            Err(_) => functions(*final(m)).dom() == functions(*old(m)).dom(),
        },
        forall|k: u32| #[trigger] functions(*old(m)).contains_key(k) ==> same_signature(functions(*old(m))[k], functions(*final(m))[k])
            && (functions(*old(m))[k].definable ==> functions(*final(m))[k].definable),
{
    let as_param = |ty: &MachTy| AbiParam::new(match ty {
        MachTy::I64 => types::I64,
        MachTy::I32 => types::I32,
        MachTy::I8 => types::I8,
        MachTy::F64 => types::F64,
    });
    let mut sig = m.make_signature();
    sig.call_conv = if system_v { CallConv::SystemV } else { sig.call_conv };
    sig.params = params.iter().map(as_param).collect();
    sig.returns = result.iter().map(as_param).collect();
    let linkage = if export { Linkage::Export } else { Linkage::Import };
    m.declare_function(name, linkage, &sig).map(|id| id.as_u32())
}

/// `Module::declare_anonymous_data`: a new data object without contents.  It is never refused.
#[verifier::external_body]
pub(crate) fn declare_data(m: &mut ObjectModule, writable: bool) -> (r: Result<u32, ModuleError>)
    ensures
        functions(*final(m)) == functions(*old(m)),
        bodies(*final(m)) == bodies(*old(m)),
        origin(*final(m)) == origin(*old(m)),
        r is Ok,
        match r {
            Ok(id) => {
                &&& !data_objects(*old(m)).contains_key(id)
                &&& data_objects(*final(m)) == data_objects(*old(m)).insert(id, DataDecl { writable, init: DataInit::Missing })
            },
            Err(_) => data_objects(*final(m)) == data_objects(*old(m)),
        },
{
    m.declare_anonymous_data(writable, false).map(|id| id.as_u32())
}

/// `DataDescription::define` and `Module::define_data`: the data object holds the bytes of a text.  One
/// that `declare_data` made, and that has no contents, is never refused.
#[verifier::external_body]
pub(crate) fn define_text(m: &mut ObjectModule, id: u32, text: &str) -> (r: Result<(), ModuleError>)
    requires
        origin(*old(m)) is Some,
        data_objects(*old(m)).contains_key(id),
        data_objects(*old(m))[id].init is Missing,
    ensures
        functions(*final(m)) == functions(*old(m)),
        bodies(*final(m)) == bodies(*old(m)),
        origin(*final(m)) == origin(*old(m)),
        r is Ok,
        data_objects(*final(m)) == data_objects(*old(m)).insert(id, DataDecl { init: DataInit::Text(text@), ..data_objects(*old(m))[id] }),
{
    let mut desc = DataDescription::new();
    desc.define(text.as_bytes().to_vec().into_boxed_slice());
    m.define_data(DataId::from_u32(id), &desc)
}

/// The most zero bytes that a data object can be defined to hold.
pub const MAX_ZEROS: usize = 0xffff;

/// `DataDescription::define_zeroinit` and `Module::define_data`: the data object holds `size` zero
/// bytes.  The sizes of all such objects are added up in 64 bits, so no one of them may be large.  An
/// object that `declare_data` made, and that has no contents, is never refused.
#[verifier::external_body]
pub(crate) fn define_zeros(m: &mut ObjectModule, id: u32, size: usize) -> (r: Result<(), ModuleError>)
    requires
        origin(*old(m)) is Some,
        data_objects(*old(m)).contains_key(id),
        data_objects(*old(m))[id].init is Missing,
        size <= MAX_ZEROS,
    ensures
        functions(*final(m)) == functions(*old(m)),
        bodies(*final(m)) == bodies(*old(m)),
        origin(*final(m)) == origin(*old(m)),
        r is Ok,
        data_objects(*final(m)) == data_objects(*old(m)).insert(id, DataDecl { init: DataInit::Zeros(size as nat), ..data_objects(*old(m))[id] }),
{
    let mut desc = DataDescription::new();
    desc.define_zeroinit(size);
    m.define_data(DataId::from_u32(id), &desc)
}

/// `Module::define_function`: compiles the function in `ctx`, and makes it the definition of
/// function `id`, where it had none.  The function has to be complete, its stack slots must not
/// outgrow what a frame can be, and what it refers to has to be known to this module.  It is refused
/// where function `id` is not to be defined here, or has a definition, or where the code generator
/// does not take it, and nowhere else.  What the code generator takes rests on the target, and is not
/// said; ill-typed functions it does not, as a module that `new_module` made has the verifier of
/// functions on.
#[verifier::external_body]
pub(crate) fn define_function(m: &mut ObjectModule, id: u32, ctx: &mut Context) -> (r: Result<(), ModuleError>)
    requires
        origin(*old(m)) is Some,
        functions(*old(m)).contains_key(id),
        is_complete(body(*old(ctx))),
        frame(body(*old(ctx))) <= MAX_FRAME,
        all_resolved(body(*old(ctx)), functions(*old(m)), data_objects(*old(m))),
    ensures
        functions(*final(m)) == functions(*old(m)),
        data_objects(*final(m)) == data_objects(*old(m)),
        origin(*final(m)) == origin(*old(m)),
        r is Ok <==> functions(*old(m))[id].definable && !bodies(*old(m)).contains_key(id) && accepts(*old(m), id, *old(ctx)),
        match r {
            Ok(_) => {
                &&& bodies(*final(m)) == bodies(*old(m)).insert(id, body(*old(ctx)))
                &&& code_sizes(*final(m)).contains_key(id)
                &&& code_sizes(*final(m))[id] == compiled_size(*final(ctx))
            },
            Err(_) => bodies(*final(m)) == bodies(*old(m)),
        },
{
    m.define_function(FuncId::from_u32(id), ctx)
}

/// Why there is no module.
pub enum Refusal {
    /// The host is not supported.
    Host(String),
    /// There is no code generator with these settings.
    Isa(String),
    Module(ModuleError),
}

/// `cranelift_native::builder`, `isa::Builder::finish`, `ObjectBuilder::new` and
/// `ObjectModule::new`: an object module for the host, of that name and with those settings, that
/// knows nothing, and whether pointers have 64 bits.  Whether there is one, how wide pointers are and
/// how functions are called depends on the host.
#[verifier::external_body]
pub(crate) fn new_module(name: &str, opt_level: &str, pic: bool) -> (r: Result<(ObjectModule, bool), Refusal>)
    requires
        opt_level@ == "speed"@,
        !name@.contains('\0'),
    ensures
        match r {
            Ok((m, _)) => {
                &&& functions(m) == Map::<u32, FuncDecl>::empty()
                &&& data_objects(m) == Map::<u32, DataDecl>::empty()
                &&& bodies(m) == Map::<u32, Seq<Request>>::empty()
                &&& origin(m) is Some
                &&& origin(m)->0.name == name@
                &&& origin(m)->0.opt_level == opt_level@
                &&& origin(m)->0.pic == pic
            },
            Err(_) => true,
        },
{
    let mut flags = settings::builder();
    flags.set("opt_level", opt_level).unwrap();
    flags.set("is_pic", if pic { "true" } else { "false" }).unwrap();
    let host = cranelift_native::builder().map_err(|e| Refusal::Host(e.to_owned()))?;
    let isa = host.finish(settings::Flags::new(flags)).map_err(|e| Refusal::Isa(e.to_string()))?;
    let wide = isa.pointer_type() == types::I64;
    let object = ObjectBuilder::new(isa, name, cranelift_module::default_libcall_names()).map_err(Refusal::Module)?;
    Ok((ObjectModule::new(object), wide))
}

/// `ObjectModule::finish` and `ObjectProduct::emit`: the bytes of the object file, where there is one.
/// Every function that can be defined has to be, and every data object, and the module has to know
/// what its functions refer to.
#[verifier::external_body]
pub(crate) fn emit_object(m: ObjectModule) -> (r: Result<Vec<u8>, String>)
    requires
        origin(m) is Some,
        forall|id: u32| #[trigger] functions(m).contains_key(id) && functions(m)[id].definable ==> bodies(m).contains_key(id),
        forall|id: u32| #[trigger] data_objects(m).contains_key(id) ==> !(data_objects(m)[id].init is Missing),
        forall|id: u32| #[trigger] bodies(m).contains_key(id) ==> all_resolved(bodies(m)[id], functions(m), data_objects(m)),
    ensures
        match r {
            Ok(bytes) => object_file(m) == Some(bytes@),
            Err(_) => object_file(m) is None,
        },
{
    m.finish().emit().map_err(|e| e.to_string())
}

/// `Context::compiled_code`: the size of the machine code of the function that was compiled last,
/// or zero where there is none.
#[verifier::external_body]
pub(crate) fn code_size(ctx: &Context) -> (r: u32)
    ensures
        r == compiled_size(*ctx),
{
    ctx.compiled_code().map(|c| c.code_info().total_size).unwrap_or(0)
}

} // verus!
