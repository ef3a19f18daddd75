//! Carrying out a plan: every request of the plan becomes calls of the code generator, and the
//! numbers of what those calls make take the place of the positions in the plan.
use crate::backend;
use crate::backend::{machine, DataDecl, DataInit, MachTy, Request};
use crate::bridge;
use crate::bridge::{ClifTy, RtFn};
use crate::clif;
use crate::clif::{Arith, Cell, FloatCond, IntCond, Op, OpView};
use crate::codegen::CodegenError;
use crate::emission::ErrorView;
use crate::ir::VarId;
use crate::text::same;
use cranelift_frontend::FunctionBuilder;
use cranelift_object::ObjectModule;
use std::collections::{HashMap, HashSet};
use vstd::prelude::*;
use vstd::string::*;

verus! {

broadcast use vstd::std_specs::hash::group_hash_axioms;

/// What a request of a plan yields.
#[derive(Clone, Copy, Debug, PartialEq, Eq, Structural)]
pub enum Kind {
    Nothing,
    Block,
    Value(MachTy),
    /// A function with this result.
    Func(Option<MachTy>),
    Slot,
    Data,
}

/// What a request of a plan came to: the number of the entity, and further numbers that go with it.
pub struct Ent {
    pub id: u32,
    pub aux: Vec<u32>,
}

/// What a request of a plan came to.
pub struct EntView {
    pub id: u32,
    pub aux: Seq<u32>,
}

impl View for Ent {
    type V = EntView;

    open spec fn view(&self) -> EntView {
        EntView { id: self.id, aux: self.aux@ }
    }
}

/// The functions that a plan can refer to, by the numbers that a module knows them under.
pub struct Setting {
    /// Pointers have 64 bits.
    pub wide: bool,
    /// The bridge functions, in the order of the bridge.
    pub rt: Vec<u32>,
    /// The functions of the program.
    pub users: Vec<(String, u32)>,
    /// The parameters of the function that the plan is for.
    pub params: Vec<MachTy>,
}

/// What a plan can refer to, and the parameters of the function that it is for.
pub struct SettingView {
    pub wide: bool,
    pub rt: Seq<u32>,
    pub users: Seq<(Seq<char>, u32)>,
    pub params: Seq<MachTy>,
}

/// The functions of the program, by name.
pub open spec fn users_view(users: Seq<(String, u32)>) -> Seq<(Seq<char>, u32)> {
    users.map_values(|u: (String, u32)| (u.0@, u.1))
}

/// What a plan can refer to.
pub open spec fn setting_view(s: Setting) -> SettingView {
    SettingView { wide: s.wide, rt: s.rt@, users: users_view(s.users@), params: s.params@ }
}

/// The position, from `i` on, of a function of the program; their number where there is none.
pub open spec fn user_at(users: Seq<(Seq<char>, u32)>, name: Seq<char>, i: int) -> int
    decreases users.len() - i,
{
    if i < 0 || i >= users.len() {
        users.len() as int
    } else if users[i].0 == name {
        i
    } else {
        user_at(users, name, i + 1)
    }
}

/// The pointer type.
pub open spec fn ptr_ty(s: SettingView) -> MachTy {
    backend::machine_ty(ClifTy::Ptr, s.wide)
}

/// The result of a bridge function.
pub open spec fn rt_machine_result(f: RtFn, wide: bool) -> Option<MachTy> {
    match bridge::rt_result(f) {
        Some(ty) => Some(backend::machine_ty(ty, wide)),
        None => None,
    }
}

/// A plan that has been carried out so far.
pub struct Desk {
    pub kinds: Seq<Kind>,
    pub ents: Seq<EntView>,
    /// The variables that have been declared.
    pub vars: Map<u32, (u32, MachTy)>,
    /// The request that made the block that instructions go to.
    pub place: Option<usize>,
    /// The blocks that have an instruction, and those that have come to their end.
    pub touched: Seq<bool>,
    pub filled: Seq<bool>,
    /// The block that has the parameters of the function, and these.
    pub entry: Option<usize>,
    pub params: Seq<u32>,
    /// Nothing has been asked but for blocks.
    pub plain: bool,
    pub sealed: bool,
}

pub open spec fn empty_desk() -> Desk {
    Desk {
        kinds: Seq::empty(),
        ents: Seq::empty(),
        vars: Map::empty(),
        place: None,
        touched: Seq::empty(),
        filled: Seq::empty(),
        entry: None,
        params: Seq::empty(),
        plain: true,
        sealed: false,
    }
}

/// What the request at `p` yields.
pub open spec fn kind_at(d: Desk, p: usize) -> Kind {
    if p < d.kinds.len() { d.kinds[p as int] } else { Kind::Nothing }
}

/// There is a block to add to.
pub open spec fn working(d: Desk) -> bool {
    !d.sealed && match d.place {
        Some(p) => p < d.filled.len() && !d.filled[p as int],
        None => false,
    }
}

/// The request at `p` yields a value.
pub open spec fn value_at(d: Desk, p: usize) -> bool {
    kind_at(d, p) is Value
}

pub open spec fn values_at(d: Desk, ps: Seq<usize>) -> bool {
    forall|i: int| 0 <= i < ps.len() ==> value_at(d, #[trigger] ps[i])
}

/// The most cells that a stack slot can have.
pub const MAX_CELLS: usize = 0x01ff_ffff;

/// The request can be carried out.
#[verifier::opaque]
pub open spec fn ready(d: Desk, op: OpView, s: SettingView) -> bool {
    match op {
        OpView::CreateBlock => !d.sealed,
        OpView::SwitchTo(b) => kind_at(d, b) == Kind::Block && !d.sealed && !d.filled[b as int] && match d.place {
            Some(p) => d.touched[p as int] ==> d.filled[p as int],
            None => true,
        },
        OpView::FunctionParams(b) => kind_at(d, b) == Kind::Block && d.plain && !d.sealed,
        OpView::BlockParam { block, index } => d.entry == Some(block) && index < s.params.len(),
        OpView::AppendParam { block, .. } => kind_at(d, block) == Kind::Block && !d.sealed && !d.touched[block as int],
        OpView::DeclareVar { .. } => true,
        OpView::DefVar { var, value } => d.vars.contains_key(var.0) && kind_at(d, value) == Kind::Value(d.vars[var.0].1) && d.place is Some,
        OpView::UseVar(var) => d.vars.contains_key(var.0) && working(d),
        OpView::Iconst { .. } => working(d),
        OpView::F64const(_) => working(d),
        OpView::Binary { op, a, b } => working(d) && kind_at(d, a) == Kind::Value(backend::arith_ty(op)) && kind_at(d, b) == Kind::Value(backend::arith_ty(op)),
        OpView::IntTest { a, b, .. } => working(d) && value_at(d, a) && kind_at(d, a) == kind_at(d, b) && kind_at(d, a) != Kind::Value(MachTy::F64),
        OpView::IntTestImm { a, .. } => working(d) && value_at(d, a) && kind_at(d, a) != Kind::Value(MachTy::F64),
        OpView::FloatTest { a, b, .. } => working(d) && kind_at(d, a) == Kind::Value(MachTy::F64) && kind_at(d, b) == Kind::Value(MachTy::F64),
        OpView::FcvtFromSint(a) => working(d) && kind_at(d, a) == Kind::Value(MachTy::I64),
        OpView::ImportRt(_) => true,
        OpView::ImportUser(name) => user_at(s.users, name, 0) < s.users.len(),
        OpView::Call { func, args } => working(d) && values_at(d, args) && match kind_at(d, func) {
            Kind::Func(result) => result is Some,
            _ => false,
        },
        OpView::CallVoid { func, args } => working(d) && values_at(d, args) && kind_at(d, func) is Func,
        OpView::FuncAddr(f) => working(d) && kind_at(d, f) is Func,
        OpView::StackSlot { count, .. } => count <= MAX_CELLS,
        OpView::StackStore { value, slot, index, .. } => working(d) && value_at(d, value) && kind_at(d, slot) == Kind::Slot && index <= MAX_CELLS,
        OpView::StackAddr(slot) => working(d) && kind_at(d, slot) == Kind::Slot,
        OpView::TextData(_) => true,
        OpView::ZeroData => true,
        OpView::DataAddr(data) => working(d) && kind_at(d, data) == Kind::Data,
        OpView::LoadPtr(a) => working(d) && value_at(d, a),
        OpView::Brif { cond, then_block, then_args, else_block, else_args } => working(d) && value_at(d, cond) && kind_at(d, then_block) == Kind::Block
            && kind_at(d, else_block) == Kind::Block && values_at(d, then_args) && values_at(d, else_args),
        OpView::Jump { block, args } => working(d) && kind_at(d, block) == Kind::Block && values_at(d, args),
        OpView::Return(a) => working(d) && value_at(d, a),
        OpView::SealAll => !d.sealed,
    }
}

/// What the request yields.
pub open spec fn kind_of(d: Desk, op: OpView, s: SettingView) -> Kind {
    match op {
        OpView::CreateBlock => Kind::Block,
        OpView::BlockParam { index, .. } => Kind::Value(s.params[index as int]),
        OpView::AppendParam { ty, .. } => Kind::Value(backend::machine_ty(ty, s.wide)),
        OpView::UseVar(var) => Kind::Value(d.vars[var.0].1),
        OpView::Iconst { ty, .. } => Kind::Value(backend::machine_ty(ty, s.wide)),
        OpView::F64const(_) => Kind::Value(MachTy::F64),
        OpView::Binary { op, .. } => Kind::Value(backend::arith_ty(op)),
        OpView::IntTest { .. } => Kind::Value(MachTy::I8),
        OpView::IntTestImm { .. } => Kind::Value(MachTy::I8),
        OpView::FloatTest { .. } => Kind::Value(MachTy::I8),
        OpView::FcvtFromSint(_) => Kind::Value(MachTy::F64),
        OpView::ImportRt(f) => Kind::Func(rt_machine_result(f, s.wide)),
        OpView::ImportUser(_) => Kind::Func(Some(ptr_ty(s))),
        OpView::Call { func, .. } => match kind_at(d, func) {
            Kind::Func(Some(ty)) => Kind::Value(ty),
            _ => Kind::Nothing,
        },
        OpView::FuncAddr(_) => Kind::Value(ptr_ty(s)),
        OpView::StackSlot { .. } => Kind::Slot,
        OpView::StackAddr(_) => Kind::Value(ptr_ty(s)),
        OpView::TextData(_) => Kind::Data,
        OpView::ZeroData => Kind::Data,
        OpView::DataAddr(_) => Kind::Value(ptr_ty(s)),
        OpView::LoadPtr(_) => Kind::Value(ptr_ty(s)),
        _ => Kind::Nothing,
    }
}

/// The request adds to the block that it stands in.
pub open spec fn adds(op: OpView) -> bool {
    match op {
        OpView::UseVar(_) => true,
        OpView::Iconst { .. } => true,
        OpView::F64const(_) => true,
        OpView::Binary { .. } => true,
        OpView::IntTest { .. } => true,
        OpView::IntTestImm { .. } => true,
        OpView::FloatTest { .. } => true,
        OpView::FcvtFromSint(_) => true,
        OpView::Call { .. } => true,
        OpView::CallVoid { .. } => true,
        OpView::FuncAddr(_) => true,
        OpView::StackStore { .. } => true,
        OpView::StackAddr(_) => true,
        OpView::DataAddr(_) => true,
        OpView::LoadPtr(_) => true,
        OpView::Brif { .. } => true,
        OpView::Jump { .. } => true,
        OpView::Return(_) => true,
        _ => false,
    }
}

/// The request ends the block that it stands in.
pub open spec fn ends(op: OpView) -> bool {
    op is Brif || op is Jump || op is Return
}

pub open spec fn mark(bits: Seq<bool>, place: Option<usize>, on: bool) -> Seq<bool> {
    match place {
        Some(p) => if on { bits.update(p as int, true) } else { bits },
        None => bits,
    }
}

/// One more request has been carried out, which came to `e`.
pub open spec fn noted(d: Desk, kind: Kind, e: EntView, inst: bool, term: bool) -> Desk {
    Desk {
        kinds: d.kinds.push(kind),
        ents: d.ents.push(e),
        touched: mark(d.touched, d.place, inst).push(false),
        filled: mark(d.filled, d.place, term).push(false),
        plain: false,
        ..d
    }
}

/// The request has been carried out, and came to `e`.
#[verifier::opaque]
pub open spec fn advance(d: Desk, op: OpView, e: EntView, s: SettingView) -> Desk {
    let d1 = noted(d, kind_of(d, op, s), e, adds(op), ends(op));
    match op {
        OpView::CreateBlock => Desk { plain: d.plain, ..d1 },
        OpView::SwitchTo(b) => Desk { plain: d.plain, place: Some(b), ..d1 },
        OpView::FunctionParams(b) => Desk { entry: Some(b), params: e.aux, ..d1 },
        OpView::DeclareVar { var, ty } => Desk { vars: d.vars.insert(var.0, (e.id, backend::machine_ty(ty, s.wide))), ..d1 },
        OpView::SealAll => Desk { sealed: true, ..d1 },
        _ => d1,
    }
}

/// The number of what the request at `p` made.
pub open spec fn id_at(d: Desk, p: usize) -> u32 {
    d.ents[p as int].id
}

pub open spec fn ids_at(d: Desk, ps: Seq<usize>) -> Seq<u32> {
    Seq::new(ps.len(), |i: int| id_at(d, ps[i]))
}

/// The size of a stack cell.
pub open spec fn cell_bytes(cell: Cell) -> int {
    match cell {
        Cell::Word => 8,
        Cell::Byte => 1,
    }
}

/// The alignment of a stack cell, as a power of two.
pub open spec fn cell_shift(cell: Cell) -> u8 {
    match cell {
        Cell::Word => 3,
        Cell::Byte => 0,
    }
}

/// What the builder is asked by a request of a plan that came to `e`.
#[verifier::opaque]
pub open spec fn asks(d: Desk, op: OpView, e: EntView, s: SettingView) -> Seq<Request> {
    match op {
        OpView::CreateBlock => seq![Request::Block { made: e.id }],
        OpView::SwitchTo(b) => seq![Request::Switch { block: id_at(d, b) }],
        OpView::FunctionParams(b) => seq![Request::FunctionParams { block: id_at(d, b), types: s.params, made: e.aux }],
        OpView::BlockParam { .. } => Seq::empty(),
        OpView::AppendParam { block, ty } => seq![Request::AppendParam { block: id_at(d, block), ty: backend::machine_ty(ty, s.wide), made: e.id }],
        OpView::DeclareVar { ty, .. } => seq![Request::Declare { ty: backend::machine_ty(ty, s.wide), made: e.id }],
        OpView::DefVar { var, value } => seq![Request::Define { var: d.vars[var.0].0, value: id_at(d, value) }],
        OpView::UseVar(var) => seq![Request::Use { var: d.vars[var.0].0, ty: d.vars[var.0].1, made: e.id }],
        OpView::Iconst { ty, value } => seq![Request::Iconst { ty: backend::machine_ty(ty, s.wide), value, made: e.id }],
        OpView::F64const(bits) => seq![Request::F64const { bits, made: e.id }],
        OpView::Binary { op, a, b } => seq![Request::Binary { op, a: id_at(d, a), b: id_at(d, b), made: e.id }],
        OpView::IntTest { cond, a, b } => seq![Request::IntTest { cond, a: id_at(d, a), b: id_at(d, b), made: e.id }],
        OpView::IntTestImm { cond, a, imm } => seq![Request::IntTestImm { cond, a: id_at(d, a), imm, made: e.id }],
        OpView::FloatTest { cond, a, b } => seq![Request::FloatTest { cond, a: id_at(d, a), b: id_at(d, b), made: e.id }],
        OpView::FcvtFromSint(a) => seq![Request::FromInt { a: id_at(d, a), made: e.id }],
        OpView::ImportRt(f) => seq![Request::ImportFunc { func: s.rt[bridge::rt_index(f)], result: rt_machine_result(f, s.wide), made: e.id }],
        OpView::ImportUser(name) => seq![Request::ImportFunc { func: s.users[user_at(s.users, name, 0)].1, result: Some(ptr_ty(s)), made: e.id }],
        OpView::Call { func, args } => seq![Request::Call { callee: id_at(d, func), args: ids_at(d, args), result: func_result(d, func), made: e.aux }],
        OpView::CallVoid { func, args } => seq![Request::Call { callee: id_at(d, func), args: ids_at(d, args), result: func_result(d, func), made: e.aux }],
        OpView::FuncAddr(f) => seq![Request::FuncAddr { callee: id_at(d, f), ty: ptr_ty(s), made: e.id }],
        OpView::StackSlot { cell, count } => seq![Request::Slot { bytes: (count * cell_bytes(cell)) as u32, align_shift: cell_shift(cell), made: e.id }],
        OpView::StackStore { value, slot, cell, index } => seq![Request::Store { value: id_at(d, value), slot: id_at(d, slot), offset: (index * cell_bytes(cell)) as i32 }],
        OpView::StackAddr(slot) => seq![Request::SlotAddr { slot: id_at(d, slot), ty: ptr_ty(s), made: e.id }],
        OpView::TextData(_) => Seq::empty(),
        OpView::ZeroData => Seq::empty(),
        OpView::DataAddr(data) => seq![
            Request::ImportData { data: id_at(d, data), made: e.aux[0] },
            Request::DataAddr { global: e.aux[0], ty: ptr_ty(s), made: e.id },
        ],
        OpView::LoadPtr(a) => seq![Request::Load { ty: ptr_ty(s), address: id_at(d, a), made: e.id }],
        OpView::Brif { cond, then_block, then_args, else_block, else_args } => seq![
            Request::Branch {
                cond: id_at(d, cond),
                then_block: id_at(d, then_block),
                then_args: ids_at(d, then_args),
                else_block: id_at(d, else_block),
                else_args: ids_at(d, else_args),
            },
        ],
        OpView::Jump { block, args } => seq![Request::Jump { block: id_at(d, block), args: ids_at(d, args) }],
        OpView::Return(a) => seq![Request::Return { value: id_at(d, a) }],
        OpView::SealAll => seq![Request::Seal],
    }
}

/// The result of the function at `f`.
pub open spec fn func_result(d: Desk, f: usize) -> Option<MachTy> {
    match kind_at(d, f) {
        Kind::Func(result) => result,
        _ => None,
    }
}

/// What a request came to goes with what earlier requests came to, and with the data objects.
pub open spec fn fits(d: Desk, op: OpView, e: EntView, data: Map<u32, DataDecl>) -> bool {
    match op {
        OpView::BlockParam { index, .. } => index < d.params.len() && e.id == d.params[index as int],
        OpView::Call { .. } => e.aux == seq![e.id],
        OpView::DataAddr(_) => e.aux.len() == 1,
        OpView::TextData(t) => data.contains_key(e.id) && data[e.id] == (DataDecl { writable: false, init: DataInit::Text(t) }),
        OpView::ZeroData => data.contains_key(e.id) && data[e.id] == (DataDecl { writable: true, init: DataInit::Zeros(8) }),
        _ => true,
    }
}

/// The first `n` requests of a plan carried out, where they came to `ents`.
pub open spec fn run(ops: Seq<OpView>, ents: Seq<EntView>, n: int, s: SettingView) -> Desk
    decreases n,
{
    if n <= 0 {
        empty_desk()
    } else {
        advance(run(ops, ents, n - 1, s), ops[n - 1], ents[n - 1], s)
    }
}

/// What the builder is asked by the first `n` requests of a plan.
pub open spec fn history(ops: Seq<OpView>, ents: Seq<EntView>, n: int, s: SettingView) -> Seq<Request>
    decreases n,
{
    if n <= 0 {
        Seq::empty()
    } else {
        history(ops, ents, n - 1, s) + asks(run(ops, ents, n - 1, s), ops[n - 1], ents[n - 1], s)
    }
}

/// Every one of the first `n` requests fits.
pub open spec fn all_fit(ops: Seq<OpView>, ents: Seq<EntView>, n: int, data: Map<u32, DataDecl>, s: SettingView) -> bool {
    forall|i: int| 0 <= i < n ==> fits(run(ops, ents, i, s), #[trigger] ops[i], ents[i], data)
}

/// The builder was asked for what the plan says, in its order, and for nothing else.
pub open spec fn realizes(ops: Seq<OpView>, ents: Seq<EntView>, asked: Seq<Request>, data: Map<u32, DataDecl>, s: SettingView) -> bool {
    &&& ents.len() == ops.len()
    &&& asked == history(ops, ents, ops.len() as int, s)
    &&& all_fit(ops, ents, ops.len() as int, data, s)
}

/// A plan's requests without what they come to.
pub open spec fn blank(n: nat) -> Seq<EntView> {
    Seq::new(n, |i: int| EntView { id: 0, aux: Seq::empty() })
}

/// Every block with an instruction has come to its end.
pub open spec fn is_closed(d: Desk) -> bool {
    forall|p: int| 0 <= p < d.touched.len() && #[trigger] d.touched[p] ==> d.filled[p]
}

/// The block that instructions went to last has come to its end.
pub open spec fn is_over(d: Desk) -> bool {
    match d.place {
        Some(p) => p < d.filled.len() && d.filled[p as int],
        None => false,
    }
}

/// The bytes that a stack slot takes, with what aligning it may cost.
pub open spec fn room(op: OpView) -> nat {
    match op {
        OpView::StackSlot { cell, count } => (count * cell_bytes(cell)) as nat + 16,
        _ => 0,
    }
}

/// The bytes that the stack slots of a plan take.
pub open spec fn frame(ops: Seq<OpView>) -> nat
    decreases ops.len(),
{
    if ops.len() == 0 { 0 } else { frame(ops.drop_last()) + room(ops.last()) }
}

/// The variables that the plan has read or given a value since instructions went to this block.
pub open spec fn near(ops: Seq<OpView>) -> Set<u32>
    decreases ops.len(),
{
    if ops.len() == 0 {
        Set::empty()
    } else {
        match ops.last() {
            OpView::SwitchTo(_) => Set::empty(),
            OpView::DeclareVar { var, .. } => near(ops.drop_last()).remove(var.0),
            OpView::DefVar { var, .. } => near(ops.drop_last()).insert(var.0),
            OpView::UseVar(var) => near(ops.drop_last()).insert(var.0),
            _ => near(ops.drop_last()),
        }
    }
}

/// The variables that the plan has read, since it declared them, in a block that gave them no value.
pub open spec fn handed(ops: Seq<OpView>) -> Set<u32>
    decreases ops.len(),
{
    if ops.len() == 0 {
        Set::empty()
    } else {
        match ops.last() {
            OpView::DeclareVar { var, .. } => handed(ops.drop_last()).remove(var.0),
            OpView::UseVar(var) => if near(ops.drop_last()).contains(var.0) { handed(ops.drop_last()) } else { handed(ops.drop_last()).insert(var.0) },
            _ => handed(ops.drop_last()),
        }
    }
}

/// One where the request is the first to read a variable that has to be handed on from block to block.
pub open spec fn weight(ops: Seq<OpView>, op: OpView) -> nat {
    match op {
        OpView::UseVar(var) => if near(ops).contains(var.0) || handed(ops).contains(var.0) { 0 } else { 1 },
        _ => 0,
    }
}

/// How many variables of a plan have to be handed on from block to block, and so can be one more
/// parameter of each.
pub open spec fn spread(ops: Seq<OpView>) -> nat
    decreases ops.len(),
{
    if ops.len() == 0 { 0 } else { spread(ops.drop_last()) + weight(ops.drop_last(), ops.last()) }
}

/// How many parameters a request gives to the block at `p`, where the function has `n`.
pub open spec fn gift(op: OpView, n: nat, p: usize) -> nat {
    match op {
        OpView::FunctionParams(b) => if b == p { n } else { 0 },
        OpView::AppendParam { block, .. } => if block == p { 1 } else { 0 },
        _ => 0,
    }
}

/// How many parameters a plan gives to the block at `p`, where the function has `n`.
pub open spec fn own(ops: Seq<OpView>, n: nat, p: usize) -> nat
    decreases ops.len(),
{
    if ops.len() == 0 { 0 } else { own(ops.drop_last(), n, p) + gift(ops.last(), n, p) }
}

/// No block of a plan comes to more parameters than it can have, where the function has `n`.
pub open spec fn are_light(ops: Seq<OpView>, n: nat) -> bool {
    n <= backend::MAX_PARAMS && forall|p: usize| #[trigger] own(ops, n, p) + spread(ops) <= backend::MAX_PARAMS
}

/// The stack slots of a plan fit in a frame, and no block comes to more parameters than it can have.
pub open spec fn is_bounded(ops: Seq<OpView>, s: SettingView) -> bool {
    frame(ops) <= backend::MAX_FRAME && are_light(ops, s.params.len())
}

/// The plan can be carried out: every request finds what it needs, the blocks come to an end, and
/// neither the stack slots nor the parameters of blocks are too many.
pub open spec fn is_sound(ops: Seq<OpView>, s: SettingView) -> bool {
    let d = run(ops, blank(ops.len()), ops.len() as int, s);
    &&& forall|i: int| 0 <= i < ops.len() ==> ready(run(ops, blank(ops.len()), i, s), #[trigger] ops[i], s)
    &&& d.sealed
    &&& is_closed(d)
    &&& is_over(d)
    &&& is_bounded(ops, s)
}

/// The same requests have been carried out, whatever they came to.
pub open spec fn same_shape(a: Desk, b: Desk) -> bool {
    &&& a.kinds == b.kinds
    &&& a.vars.dom() == b.vars.dom()
    &&& forall|v: u32| #[trigger] a.vars.contains_key(v) ==> a.vars[v].1 == b.vars[v].1
    &&& a.place == b.place
    &&& a.touched == b.touched
    &&& a.filled == b.filled
    &&& a.entry == b.entry
    &&& a.plain == b.plain
    &&& a.sealed == b.sealed
}

proof fn shape_step(a: Desk, b: Desk, op: OpView, e: EntView, f: EntView, s: SettingView)
    requires
        same_shape(a, b),
        ready(a, op, s),
    ensures
        ready(b, op, s),
        same_shape(advance(a, op, e, s), advance(b, op, f, s)),
{
    reveal(ready);
    reveal(advance);
    assert forall|p: usize| kind_at(a, p) == kind_at(b, p) by {}
    assert(a.vars.dom() == b.vars.dom());
    assert(forall|v: u32| a.vars.contains_key(v) == b.vars.contains_key(v));
    assert(kind_of(a, op, s) == kind_of(b, op, s));
    assert(advance(a, op, e, s).vars.dom() =~= advance(b, op, f, s).vars.dom());
}

/// Whether a request can be carried out does not depend on what earlier ones came to.
proof fn shape_stays(ops: Seq<OpView>, ents: Seq<EntView>, n: int, s: SettingView)
    requires
        0 <= n <= ops.len(),
        forall|i: int| 0 <= i < n ==> ready(run(ops, ents, i, s), #[trigger] ops[i], s),
    ensures
        same_shape(run(ops, ents, n, s), run(ops, blank(ops.len()), n, s)),
        forall|i: int| 0 <= i < n ==> ready(run(ops, blank(ops.len()), i, s), #[trigger] ops[i], s),
    decreases n,
{
    if n > 0 {
        shape_stays(ops, ents, n - 1, s);
        shape_step(run(ops, ents, n - 1, s), run(ops, blank(ops.len()), n - 1, s), ops[n - 1], ents[n - 1], blank(ops.len())[n - 1], s);
    }
}

/// What was carried out does not depend on what comes after it.
proof fn run_stays(ops: Seq<OpView>, ents: Seq<EntView>, e: EntView, n: int, s: SettingView)
    requires
        n <= ents.len(),
    ensures
        run(ops, ents.push(e), n, s) == run(ops, ents, n, s),
        history(ops, ents.push(e), n, s) == history(ops, ents, n, s),
    decreases n,
{
    if n > 0 {
        run_stays(ops, ents, e, n - 1, s);
    }
}

/// The number belongs to an entity of this kind.
pub open spec fn stands_for(h: Seq<Request>, kind: Kind, e: EntView) -> bool {
    match kind {
        Kind::Nothing => true,
        Kind::Block => backend::is_block(h, e.id),
        Kind::Value(ty) => backend::is_value(h, e.id, ty),
        Kind::Func(result) => backend::is_function(h, e.id, result),
        Kind::Slot => backend::is_slot(h, e.id),
        Kind::Data => true,
    }
}

/// `b` is a block that the plan has made.
pub open spec fn is_known(d: Desk, b: u32) -> bool {
    exists|p: int| 0 <= p < d.kinds.len() && d.kinds[p] == Kind::Block && (#[trigger] d.ents[p]).id == b
}

/// The desk and what the builder has been asked go together.
pub open spec fn linked(d: Desk, h: Seq<Request>, s: SettingView) -> bool {
    &&& d.kinds.len() == d.ents.len()
    &&& d.touched.len() == d.kinds.len()
    &&& d.filled.len() == d.kinds.len()
    &&& forall|p: int| 0 <= p < d.kinds.len() ==> stands_for(h, #[trigger] d.kinds[p], d.ents[p])
    &&& forall|p: int, q: int| 0 <= p < d.kinds.len() && 0 <= q < d.kinds.len() && d.kinds[p] == Kind::Block && d.kinds[q] == Kind::Block
        && (#[trigger] d.ents[p]).id == (#[trigger] d.ents[q]).id ==> p == q
    &&& match d.place {
        Some(p) => p < d.kinds.len() && d.kinds[p as int] == Kind::Block && backend::place(h) == Some(d.ents[p as int].id),
        None => backend::place(h) is None,
    }
    &&& forall|p: int| 0 <= p < d.kinds.len() && d.kinds[p] == Kind::Block ==> #[trigger] d.touched[p] == backend::touched(h, d.ents[p].id)
    &&& forall|p: int| 0 <= p < d.kinds.len() && d.kinds[p] == Kind::Block ==> #[trigger] d.filled[p] == backend::filled(h, d.ents[p].id)
    &&& forall|b: u32| #[trigger] backend::touched(h, b) ==> is_known(d, b)
    &&& forall|v: u32| #[trigger] d.vars.contains_key(v) ==> backend::is_variable(h, d.vars[v].0, d.vars[v].1)
    &&& d.entry is Some ==> d.params.len() == s.params.len()
    &&& d.entry is Some ==> forall|i: int| 0 <= i < d.params.len() ==> backend::is_value(h, #[trigger] d.params[i], s.params[i])
    &&& d.plain ==> backend::only_blocks(h)
    &&& d.sealed == backend::is_sealed(h)
}

/// What has been made stays made.
proof fn made_stays(h: Seq<Request>, r: Request)
    ensures
        forall|x: Request| h.contains(x) ==> #[trigger] h.push(r).contains(x),
        h.push(r).contains(r),
        forall|v: u32, ty: MachTy| backend::is_value(h, v, ty) ==> #[trigger] backend::is_value(h.push(r), v, ty),
        forall|b: u32| backend::is_block(h, b) ==> #[trigger] backend::is_block(h.push(r), b),
        forall|f: u32, result: Option<MachTy>| backend::is_function(h, f, result) ==> #[trigger] backend::is_function(h.push(r), f, result),
        forall|x: u32| backend::is_slot(h, x) ==> #[trigger] backend::is_slot(h.push(r), x),
        forall|v: u32, ty: MachTy| backend::makes_value(r, v, ty) ==> #[trigger] backend::is_value(h.push(r), v, ty),
{
    let g = h.push(r);
    assert forall|x: Request| h.contains(x) implies #[trigger] g.contains(x) by {
        let k = choose|k: int| 0 <= k < h.len() && h[k] == x;
        assert(g[k] == x);
    }
    assert(g[h.len() as int] == r);
    assert forall|v: u32, ty: MachTy| backend::is_value(h, v, ty) implies #[trigger] backend::is_value(g, v, ty) by {
        let k = choose|k: int| 0 <= k < h.len() && backend::makes_value(#[trigger] h[k], v, ty);
        assert(backend::makes_value(g[k], v, ty));
    }
    assert forall|f: u32, result: Option<MachTy>| backend::is_function(h, f, result) implies #[trigger] backend::is_function(g, f, result) by {
        let id = choose|id: u32| h.contains(Request::ImportFunc { func: id, result, made: f });
        assert(g.contains(Request::ImportFunc { func: id, result, made: f }));
    }
    assert forall|x: u32| backend::is_slot(h, x) implies #[trigger] backend::is_slot(g, x) by {
        let (bytes, align_shift) = choose|bytes: u32, align_shift: u8| h.contains(Request::Slot { bytes, align_shift, made: x });
        assert(g.contains(Request::Slot { bytes, align_shift, made: x }));
    }
}

/// How one more request changes where things stand.
proof fn standing_after(h: Seq<Request>, r: Request)
    ensures
        backend::place(h.push(r)) == (match r {
            Request::Switch { block } => Some(block),
            _ => backend::place(h),
        }),
        forall|b: u32| #[trigger] backend::touched(h.push(r), b) == (backend::touched(h, b) || (backend::is_instruction(r) && backend::place(h) == Some(b))),
        forall|b: u32| #[trigger] backend::filled(h.push(r), b) == (backend::filled(h, b) || (backend::is_terminator(r) && backend::place(h) == Some(b))),
        backend::is_sealed(h.push(r)) == (backend::is_sealed(h) || r is Seal),
        backend::only_blocks(h) && (r is Block || r is Switch) ==> backend::only_blocks(h.push(r)),
{
    let g = h.push(r);
    assert(g.drop_last() =~= h);
    made_stays(h, r);
    if backend::is_sealed(g) && !(r is Seal) {
        let k = choose|k: int| 0 <= k < g.len() && g[k] == Request::Seal;
        assert(h[k] == Request::Seal);
    }
}

/// The desk goes with one more request that no request of the plan stands for.
proof fn link_extend(d: Desk, h: Seq<Request>, r: Request, s: SettingView)
    requires
        linked(d, h, s),
        !backend::is_instruction(r),
        !(r is Block),
        !(r is Switch),
        !(r is Seal),
        !d.plain,
    ensures
        linked(d, h.push(r), s),
{
    made_stays(h, r);
    standing_after(h, r);
    assert forall|p: int| 0 <= p < d.kinds.len() implies stands_for(h.push(r), #[trigger] d.kinds[p], d.ents[p]) by {
        assert(stands_for(h, d.kinds[p], d.ents[p]));
    }
}

/// The desk goes with one more request of the plan that asks the builder for nothing.
proof fn link_none(d: Desk, h: Seq<Request>, kind: Kind, e: EntView, s: SettingView)
    requires
        linked(d, h, s),
        stands_for(h, kind, e),
        kind != Kind::Block,
    ensures
        linked(noted(d, kind, e, false, false), h, s),
{
    let d1 = noted(d, kind, e, false, false);
    assert forall|p: int| 0 <= p < d1.kinds.len() implies stands_for(h, #[trigger] d1.kinds[p], d1.ents[p]) by {
        if p < d.kinds.len() {
            assert(stands_for(h, d.kinds[p], d.ents[p]));
        }
    }
    assert forall|b: u32| #[trigger] backend::touched(h, b) implies is_known(d1, b) by {
        let p = choose|p: int| 0 <= p < d.kinds.len() && d.kinds[p] == Kind::Block && (#[trigger] d.ents[p]).id == b;
        assert(d1.ents[p].id == b);
    }
}

/// The desk goes with one more request of the plan that asks the builder for `r`.
proof fn link_one(d: Desk, h: Seq<Request>, r: Request, kind: Kind, e: EntView, s: SettingView)
    requires
        linked(d, h, s),
        stands_for(h.push(r), kind, e),
        kind != Kind::Block,
        !(r is Block),
        !(r is Switch),
        !(r is Seal),
        backend::is_instruction(r) ==> d.place is Some,
    ensures
        linked(noted(d, kind, e, backend::is_instruction(r), backend::is_terminator(r)), h.push(r), s),
{
    let inst = backend::is_instruction(r);
    let term = backend::is_terminator(r);
    let g = h.push(r);
    let d1 = noted(d, kind, e, inst, term);
    made_stays(h, r);
    standing_after(h, r);
    assert forall|p: int| 0 <= p < d1.kinds.len() implies stands_for(g, #[trigger] d1.kinds[p], d1.ents[p]) by {
        if p < d.kinds.len() {
            assert(stands_for(h, d.kinds[p], d.ents[p]));
        }
    }
    assert forall|p: int| 0 <= p < d1.kinds.len() && d1.kinds[p] == Kind::Block implies #[trigger] d1.touched[p] == backend::touched(g, d1.ents[p].id) by {
        assert(d.touched[p] == backend::touched(h, d.ents[p].id));
        if inst {
            let at = d.place->0 as int;
            assert(d.ents[at].id == d.ents[p].id ==> at == p);
        }
    }
    assert forall|p: int| 0 <= p < d1.kinds.len() && d1.kinds[p] == Kind::Block implies #[trigger] d1.filled[p] == backend::filled(g, d1.ents[p].id) by {
        assert(d.filled[p] == backend::filled(h, d.ents[p].id));
        if term {
            let at = d.place->0 as int;
            assert(d.ents[at].id == d.ents[p].id ==> at == p);
        }
    }
    assert forall|b: u32| #[trigger] backend::touched(g, b) implies is_known(d1, b) by {
        if backend::touched(h, b) {
            let p = choose|p: int| 0 <= p < d.kinds.len() && d.kinds[p] == Kind::Block && (#[trigger] d.ents[p]).id == b;
            assert(d1.ents[p].id == b);
        } else {
            let at = d.place->0 as int;
            assert(d1.ents[at].id == b);
        }
    }
}

/// The desk goes with a new block.
proof fn link_block(d: Desk, h: Seq<Request>, e: EntView, s: SettingView)
    requires
        linked(d, h, s),
        !backend::is_block(h, e.id),
    ensures
        linked(Desk { plain: d.plain, ..noted(d, Kind::Block, e, false, false) }, h.push(Request::Block { made: e.id }), s),
{
    let r = Request::Block { made: e.id };
    let g = h.push(r);
    let d1 = Desk { plain: d.plain, ..noted(d, Kind::Block, e, false, false) };
    made_stays(h, r);
    standing_after(h, r);
    assert forall|p: int| 0 <= p < d1.kinds.len() implies stands_for(g, #[trigger] d1.kinds[p], d1.ents[p]) by {
        if p < d.kinds.len() {
            assert(stands_for(h, d.kinds[p], d.ents[p]));
        }
    }
    assert forall|p: int, q: int| 0 <= p < d1.kinds.len() && 0 <= q < d1.kinds.len() && d1.kinds[p] == Kind::Block && d1.kinds[q] == Kind::Block
        && (#[trigger] d1.ents[p]).id == (#[trigger] d1.ents[q]).id implies p == q by {
        if p < d.kinds.len() {
            assert(stands_for(h, d.kinds[p], d.ents[p]));
        }
        if q < d.kinds.len() {
            assert(stands_for(h, d.kinds[q], d.ents[q]));
        }
        if p < d.kinds.len() && q < d.kinds.len() {
            assert(d.ents[p].id == d.ents[q].id);
        }
    }
    if backend::touched(h, e.id) || backend::filled(h, e.id) {
        touched_is_block(d, h, e.id, s);
    }
    assert forall|p: int| 0 <= p < d1.kinds.len() && d1.kinds[p] == Kind::Block implies #[trigger] d1.touched[p] == backend::touched(g, d1.ents[p].id) by {
        if p < d.kinds.len() {
            assert(d.touched[p] == backend::touched(h, d.ents[p].id));
        }
    }
    assert forall|p: int| 0 <= p < d1.kinds.len() && d1.kinds[p] == Kind::Block implies #[trigger] d1.filled[p] == backend::filled(g, d1.ents[p].id) by {
        if p < d.kinds.len() {
            assert(d.filled[p] == backend::filled(h, d.ents[p].id));
        }
    }
    assert forall|b: u32| #[trigger] backend::touched(g, b) implies is_known(d1, b) by {
        let p = choose|p: int| 0 <= p < d.kinds.len() && d.kinds[p] == Kind::Block && (#[trigger] d.ents[p]).id == b;
        assert(d1.ents[p].id == b);
    }
}

proof fn filled_is_touched(h: Seq<Request>, b: u32)
    ensures
        backend::filled(h, b) ==> backend::touched(h, b),
    decreases h.len(),
{
    if h.len() > 0 {
        filled_is_touched(h.drop_last(), b);
    }
}

proof fn touched_is_block(d: Desk, h: Seq<Request>, b: u32, s: SettingView)
    requires
        linked(d, h, s),
        backend::touched(h, b) || backend::filled(h, b),
    ensures
        backend::is_block(h, b),
{
    filled_is_touched(h, b);
    let p = choose|p: int| 0 <= p < d.kinds.len() && d.kinds[p] == Kind::Block && (#[trigger] d.ents[p]).id == b;
    assert(stands_for(h, d.kinds[p], d.ents[p]));
}

/// The desk goes with a change of place.
proof fn link_switch(d: Desk, h: Seq<Request>, b: usize, e: EntView, s: SettingView)
    requires
        linked(d, h, s),
        b < d.kinds.len(),
        d.kinds[b as int] == Kind::Block,
    ensures
        linked(Desk { plain: d.plain, place: Some(b), ..noted(d, Kind::Nothing, e, false, false) }, h.push(Request::Switch { block: id_at(d, b) }), s),
{
    let r = Request::Switch { block: id_at(d, b) };
    let g = h.push(r);
    let d1 = Desk { plain: d.plain, place: Some(b), ..noted(d, Kind::Nothing, e, false, false) };
    made_stays(h, r);
    standing_after(h, r);
    assert forall|p: int| 0 <= p < d1.kinds.len() implies stands_for(g, #[trigger] d1.kinds[p], d1.ents[p]) by {
        if p < d.kinds.len() {
            assert(stands_for(h, d.kinds[p], d.ents[p]));
        }
    }
    assert forall|b: u32| #[trigger] backend::touched(g, b) implies is_known(d1, b) by {
        let p = choose|p: int| 0 <= p < d.kinds.len() && d.kinds[p] == Kind::Block && (#[trigger] d.ents[p]).id == b;
        assert(d1.ents[p].id == b);
    }
}

/// The desk goes with the seal.
proof fn link_seal(d: Desk, h: Seq<Request>, e: EntView, s: SettingView)
    requires
        linked(d, h, s),
    ensures
        linked(Desk { sealed: true, ..noted(d, Kind::Nothing, e, false, false) }, h.push(Request::Seal), s),
{
    let r = Request::Seal;
    let g = h.push(r);
    let d1 = Desk { sealed: true, ..noted(d, Kind::Nothing, e, false, false) };
    made_stays(h, r);
    standing_after(h, r);
    assert forall|p: int| 0 <= p < d1.kinds.len() implies stands_for(g, #[trigger] d1.kinds[p], d1.ents[p]) by {
        if p < d.kinds.len() {
            assert(stands_for(h, d.kinds[p], d.ents[p]));
        }
    }
    assert forall|b: u32| #[trigger] backend::touched(g, b) implies is_known(d1, b) by {
        let p = choose|p: int| 0 <= p < d.kinds.len() && d.kinds[p] == Kind::Block && (#[trigger] d.ents[p]).id == b;
        assert(d1.ents[p].id == b);
    }
}

/// A plan that is being carried out.
pub struct DeskState {
    kinds: Vec<Kind>,
    ents: Vec<Ent>,
    vars: HashMap<u32, (u32, MachTy)>,
    place: Option<usize>,
    touched: Vec<bool>,
    filled: Vec<bool>,
    entry: Option<usize>,
    params: Vec<u32>,
    plain: bool,
    sealed: bool,
}

pub open spec fn ents_view(ents: Seq<Ent>) -> Seq<EntView> {
    ents.map_values(|e: Ent| e@)
}

impl View for DeskState {
    type V = Desk;

    closed spec fn view(&self) -> Desk {
        Desk {
            kinds: self.kinds@,
            ents: ents_view(self.ents@),
            vars: self.vars@,
            place: self.place,
            touched: self.touched@,
            filled: self.filled@,
            entry: self.entry,
            params: self.params@,
            plain: self.plain,
            sealed: self.sealed,
        }
    }
}

/// No variable has the number.
pub open spec fn is_new(h: Seq<Request>, x: u32) -> bool {
    forall|ty: MachTy| !backend::is_variable(h, x, ty)
}

/// The request was carried out, and came to the last entity of the desk.
pub open spec fn carried(d0: Desk, d1: Desk, h0: Seq<Request>, h1: Seq<Request>, op: OpView, s: SettingView) -> bool {
    let e = d1.ents.last();
    &&& ready(d0, op, s)
    &&& op is DeclareVar ==> is_new(h0, e.id)
    &&& d1 == advance(d0, op, e, s)
    &&& h1 == h0 + asks(d0, op, e, s)
    &&& linked(d1, h1, s)
}

/// The request was carried out where it could be, and otherwise the answer is no.
pub open spec fn answers(r: bool, d0: Desk, d1: Desk, b0: FunctionBuilder<'_>, b1: FunctionBuilder<'_>, op: OpView, s: SettingView) -> bool {
    &&& backend::outcome(b1) == backend::outcome(b0)
    &&& backend::built_params(b1) == backend::built_params(b0)
    &&& if r {
        &&& carried(d0, d1, backend::requests(b0), backend::requests(b1), op, s)
        &&& forall|data: Map<u32, DataDecl>| #[trigger] fits(d0, op, d1.ents.last(), data)
    } else {
        !ready(d0, op, s)
    }
}

/// The blocks can take the parameters that the request adds.
pub open spec fn has_room(d: Desk, h: Seq<Request>, op: OpView, s: SettingView) -> bool {
    match op {
        OpView::FunctionParams(_) => s.params.len() <= backend::MAX_PARAMS,
        OpView::AppendParam { block, .. } => kind_at(d, block) == Kind::Block ==> backend::own(h, id_at(d, block)) < backend::MAX_PARAMS,
        OpView::UseVar(var) => d.vars.contains_key(var.0) ==> forall|b: u32| #[trigger] backend::own(h, b) + backend::spread(h) + backend::weight(
            h,
            Request::Use { var: d.vars[var.0].0, ty: d.vars[var.0].1, made: 0 },
        ) <= backend::MAX_PARAMS,
        OpView::SealAll => forall|b: u32| #[trigger] backend::own(h, b) + backend::spread(h) <= backend::MAX_PARAMS,
        _ => true,
    }
}

/// What the plan refers to is what the module knows.
pub open spec fn setting_ok(s: Setting, funcs: Map<u32, backend::FuncDecl>) -> bool {
    &&& s.rt@.len() == bridge::rt_order().len()
    &&& forall|f: RtFn| funcs.contains_key(s.rt@[#[trigger] bridge::rt_index(f)]) && funcs[s.rt@[bridge::rt_index(f)]].result == rt_machine_result(f, s.wide)
    &&& forall|i: int| 0 <= i < s.users@.len() ==> funcs.contains_key((#[trigger] s.users@[i]).1) && funcs[s.users@[i].1].result == Some(backend::machine_ty(ClifTy::Ptr, s.wide))
}

/// The data objects of the plan are known to the module.
pub open spec fn has_data(d: Desk, data: Map<u32, DataDecl>) -> bool {
    forall|p: int| 0 <= p < d.kinds.len() && #[trigger] d.kinds[p] == Kind::Data ==> data.contains_key(d.ents[p].id)
}

/// What the module held it still holds, and what is new has contents.
pub open spec fn data_kept(a: Map<u32, DataDecl>, b: Map<u32, DataDecl>) -> bool {
    &&& forall|k: u32| #[trigger] a.contains_key(k) ==> b.contains_key(k) && b[k] == a[k]
    &&& forall|k: u32| #[trigger] b.contains_key(k) && !a.contains_key(k) ==> !(b[k].init is Missing)
}

proof fn push_is_concat(h: Seq<Request>, r: Request)
    ensures
        h.push(r) == h + seq![r],
{
    assert(h.push(r) =~= h + seq![r]);
}

/// What is at the positions are values.
proof fn values_stand(d: Desk, h: Seq<Request>, ps: Seq<usize>, s: SettingView)
    requires
        linked(d, h, s),
        values_at(d, ps),
    ensures
        backend::are_values(h, ids_at(d, ps)),
{
    assert forall|i: int| 0 <= i < ids_at(d, ps).len() implies backend::is_some_value(h, #[trigger] ids_at(d, ps)[i]) by {
        value_stands(d, h, ps[i], s);
    }
}

proof fn value_stands(d: Desk, h: Seq<Request>, p: usize, s: SettingView)
    requires
        linked(d, h, s),
        value_at(d, p),
    ensures
        backend::is_some_value(h, id_at(d, p)),
        backend::is_value(h, id_at(d, p), kind_at(d, p)->Value_0),
{
    assert(stands_for(h, d.kinds[p as int], d.ents[p as int]));
}

proof fn entity_stands(d: Desk, h: Seq<Request>, p: usize, s: SettingView)
    requires
        linked(d, h, s),
        p < d.kinds.len(),
    ensures
        stands_for(h, kind_at(d, p), d.ents[p as int]),
{
    assert(stands_for(h, d.kinds[p as int], d.ents[p as int]));
}

/// There is a block to add to at the desk, so there is one for the builder.
proof fn working_can_add(d: Desk, h: Seq<Request>, s: SettingView)
    requires
        linked(d, h, s),
        working(d),
    ensures
        backend::can_add(h),
        d.place is Some,
{
    let p = d.place->0 as int;
    assert(d.filled[p] == backend::filled(h, d.ents[p].id));
}

/// The position of a function of the program, if there is one of that name.
pub fn find_user(users: &Vec<(String, u32)>, name: &str) -> (r: Option<usize>)
    ensures
        match r {
            Some(i) => i < users@.len() && i == user_at(users_view(users@), name@, 0),
            None => user_at(users_view(users@), name@, 0) == users@.len(),
        },
{
    let mut i: usize = 0;
    while i < users.len()
        invariant
            i <= users@.len(),
            user_at(users_view(users@), name@, 0) == user_at(users_view(users@), name@, i as int),
        decreases users@.len() - i,
    {
        if same(users[i].0.as_str(), name) {
            return Some(i);
        }
        i += 1;
    }
    None
}

fn no_more() -> (r: Vec<u32>)
    ensures
        r@ == Seq::<u32>::empty(),
{
    Vec::new()
}

impl DeskState {
    /// A desk on which nothing has been carried out.
    fn new() -> (r: DeskState)
        ensures
            r@ == empty_desk(),
    {
        let r = DeskState {
            kinds: Vec::new(),
            ents: Vec::new(),
            vars: HashMap::new(),
            place: None,
            touched: Vec::new(),
            filled: Vec::new(),
            entry: None,
            params: Vec::new(),
            plain: true,
            sealed: false,
        };
        assert(r@.ents =~= Seq::empty());
        assert(r@.vars =~= Map::empty());
        r
    }

    fn kind(&self, p: usize) -> (r: Kind)
        ensures
            r == kind_at(self@, p),
    {
        if p < self.kinds.len() {
            self.kinds[p]
        } else {
            Kind::Nothing
        }
    }

    fn id(&self, p: usize) -> (r: u32)
        requires
            p < self@.ents.len(),
        ensures
            r == id_at(self@, p),
    {
        self.ents[p].id
    }

    fn is_working(&self) -> (r: bool)
        ensures
            r == working(self@),
    {
        if self.sealed {
            return false;
        }
        match self.place {
            Some(p) => p < self.filled.len() && !self.filled[p],
            None => false,
        }
    }

    fn has_value(&self, p: usize) -> (r: bool)
        ensures
            r == value_at(self@, p),
    {
        match self.kind(p) {
            Kind::Value(_) => true,
            _ => false,
        }
    }

    /// The numbers of the values at the positions, if all are values.
    fn values(&self, ps: &Vec<usize>) -> (r: Option<Vec<u32>>)
        requires
            self@.kinds.len() == self@.ents.len(),
        ensures
            match r {
                Some(ids) => values_at(self@, ps@) && ids@ == ids_at(self@, ps@),
                None => !values_at(self@, ps@),
            },
    {
        let mut out: Vec<u32> = Vec::new();
        let mut i: usize = 0;
        while i < ps.len()
            invariant
                i <= ps@.len(),
                self@.kinds.len() == self@.ents.len(),
                out@.len() == i,
                forall|k: int| 0 <= k < i ==> value_at(self@, #[trigger] ps@[k]),
                forall|k: int| 0 <= k < i ==> #[trigger] out@[k] == id_at(self@, ps@[k]),
            decreases ps@.len() - i,
        {
            if !self.has_value(ps[i]) {
                assert(!value_at(self@, ps@[i as int]));
                return None;
            }
            out.push(self.id(ps[i]));
            i += 1;
        }
        assert(out@ =~= ids_at(self@, ps@));
        Some(out)
    }

    /// Notes that one more request has been carried out.
    fn note(&mut self, kind: Kind, ent: Ent, inst: bool, term: bool)
        requires
            (inst || term) ==> match old(self)@.place {
                Some(p) => p < old(self)@.touched.len() && p < old(self)@.filled.len(),
                None => true,
            },
        ensures
            final(self)@ == noted(old(self)@, kind, ent@, inst, term),
    {
        let ghost before = self@;
        self.kinds.push(kind);
        self.ents.push(ent);
        match self.place {
            Some(p) => {
                if inst {
                    self.touched.set(p, true);
                }
                if term {
                    self.filled.set(p, true);
                }
            },
            None => {},
        }
        self.touched.push(false);
        self.filled.push(false);
        self.plain = false;
        assert(self@.ents =~= before.ents.push(ent@));
    }

    /// Reads a variable.
    fn do_use(&mut self, b: &mut FunctionBuilder<'_>, s: &Setting, var: VarId) -> (r: bool)
        requires
            linked(old(self)@, backend::requests(*old(b)), setting_view(*s)),
            backend::built_params(*old(b)) == s.params@,
            has_room(old(self)@, backend::requests(*old(b)), OpView::UseVar(var), setting_view(*s)),
        ensures
            answers(r, old(self)@, final(self)@, *old(b), *final(b), OpView::UseVar(var), setting_view(*s)),
    {
        let ghost sv = setting_view(*s);
        let ghost d = self@;
        let ghost h = backend::requests(*b);
        proof {
            reveal(ready);
            reveal(advance);
            reveal(asks);
        }
        if !(self.vars.contains_key(&var.0) && self.is_working()) {
            return false;
        }
        proof {
            working_can_add(d, h, sv);
            assert(d.vars.contains_key(var.0));
            assert(backend::is_variable(h, d.vars[var.0].0, d.vars[var.0].1));
        }
        let (variable, ty) = *self.vars.get(&var.0).unwrap();
        let x: u32 = backend::use_var(b, variable, ty);
        proof {
            let r = Request::Use { var: variable, ty, made: x };
            push_is_concat(h, r);
            made_stays(h, r);
            link_one(d, h, r, Kind::Value(ty), EntView { id: x, aux: Seq::empty() }, sv);
        }
        self.note(Kind::Value(ty), Ent { id: x, aux: no_more() }, true, false);
        true
    }

    /// An integer constant.
    fn do_iconst(&mut self, b: &mut FunctionBuilder<'_>, s: &Setting, ty: ClifTy, value: i64) -> (r: bool)
        requires
            linked(old(self)@, backend::requests(*old(b)), setting_view(*s)),
            backend::built_params(*old(b)) == s.params@,
        ensures
            answers(r, old(self)@, final(self)@, *old(b), *final(b), (OpView::Iconst { ty, value }), setting_view(*s)),
    {
        let ghost sv = setting_view(*s);
        let ghost d = self@;
        let ghost h = backend::requests(*b);
        proof {
            reveal(ready);
            reveal(advance);
            reveal(asks);
        }
        if !(self.is_working()) {
            return false;
        }
        proof {
            working_can_add(d, h, sv);
        }
        let t = machine(ty, s.wide);
        let x: u32 = backend::iconst(b, t, value);
        proof {
            let r = Request::Iconst { ty: t, value, made: x };
            push_is_concat(h, r);
            made_stays(h, r);
            link_one(d, h, r, Kind::Value(t), EntView { id: x, aux: Seq::empty() }, sv);
        }
        self.note(Kind::Value(t), Ent { id: x, aux: no_more() }, true, false);
        true
    }

    /// A double constant.
    fn do_f64const(&mut self, b: &mut FunctionBuilder<'_>, s: &Setting, bits: u64) -> (r: bool)
        requires
            linked(old(self)@, backend::requests(*old(b)), setting_view(*s)),
            backend::built_params(*old(b)) == s.params@,
        ensures
            answers(r, old(self)@, final(self)@, *old(b), *final(b), OpView::F64const(bits), setting_view(*s)),
    {
        let ghost sv = setting_view(*s);
        let ghost d = self@;
        let ghost h = backend::requests(*b);
        proof {
            reveal(ready);
            reveal(advance);
            reveal(asks);
        }
        if !(self.is_working()) {
            return false;
        }
        proof {
            working_can_add(d, h, sv);
        }
        let x: u32 = backend::f64const(b, bits);
        proof {
            let r = Request::F64const { bits, made: x };
            push_is_concat(h, r);
            made_stays(h, r);
            link_one(d, h, r, Kind::Value(MachTy::F64), EntView { id: x, aux: Seq::empty() }, sv);
        }
        self.note(Kind::Value(MachTy::F64), Ent { id: x, aux: no_more() }, true, false);
        true
    }

    /// Arithmetic.
    fn do_binary(&mut self, b: &mut FunctionBuilder<'_>, s: &Setting, op: Arith, p: usize, q: usize) -> (r: bool)
        requires
            linked(old(self)@, backend::requests(*old(b)), setting_view(*s)),
            backend::built_params(*old(b)) == s.params@,
        ensures
            answers(r, old(self)@, final(self)@, *old(b), *final(b), (OpView::Binary { op, a: p, b: q }), setting_view(*s)),
    {
        let ghost sv = setting_view(*s);
        let ghost d = self@;
        let ghost h = backend::requests(*b);
        proof {
            reveal(ready);
            reveal(advance);
            reveal(asks);
        }
        if !(self.is_working() && self.kind(p) == Kind::Value(arith(op)) && self.kind(q) == Kind::Value(arith(op))) {
            return false;
        }
        proof {
            working_can_add(d, h, sv);
            entity_stands(d, h, p, sv);
            entity_stands(d, h, q, sv);
        }
        let ty = arith(op);
        let (v, w) = (self.id(p), self.id(q));
        let x: u32 = backend::binary(b, op, v, w);
        proof {
            let r = Request::Binary { op, a: v, b: w, made: x };
            push_is_concat(h, r);
            made_stays(h, r);
            link_one(d, h, r, Kind::Value(ty), EntView { id: x, aux: Seq::empty() }, sv);
        }
        self.note(Kind::Value(ty), Ent { id: x, aux: no_more() }, true, false);
        true
    }

    /// A condition on two integers.
    fn do_int_test(&mut self, b: &mut FunctionBuilder<'_>, s: &Setting, cond: IntCond, p: usize, q: usize) -> (r: bool)
        requires
            linked(old(self)@, backend::requests(*old(b)), setting_view(*s)),
            backend::built_params(*old(b)) == s.params@,
        ensures
            answers(r, old(self)@, final(self)@, *old(b), *final(b), (OpView::IntTest { cond, a: p, b: q }), setting_view(*s)),
    {
        let ghost sv = setting_view(*s);
        let ghost d = self@;
        let ghost h = backend::requests(*b);
        proof {
            reveal(ready);
            reveal(advance);
            reveal(asks);
        }
        if !(self.is_working() && self.has_value(p) && self.kind(p) == self.kind(q) && self.kind(p) != Kind::Value(MachTy::F64)) {
            return false;
        }
        proof {
            working_can_add(d, h, sv);
            entity_stands(d, h, p, sv);
            entity_stands(d, h, q, sv);
        }
        let (v, w) = (self.id(p), self.id(q));
        let x: u32 = backend::int_test(b, cond, v, w);
        proof {
            let r = Request::IntTest { cond, a: v, b: w, made: x };
            push_is_concat(h, r);
            made_stays(h, r);
            link_one(d, h, r, Kind::Value(MachTy::I8), EntView { id: x, aux: Seq::empty() }, sv);
        }
        self.note(Kind::Value(MachTy::I8), Ent { id: x, aux: no_more() }, true, false);
        true
    }

    /// A condition on an integer and a constant.
    fn do_int_test_imm(&mut self, b: &mut FunctionBuilder<'_>, s: &Setting, cond: IntCond, p: usize, imm: i64) -> (r: bool)
        requires
            linked(old(self)@, backend::requests(*old(b)), setting_view(*s)),
            backend::built_params(*old(b)) == s.params@,
        ensures
            answers(r, old(self)@, final(self)@, *old(b), *final(b), (OpView::IntTestImm { cond, a: p, imm }), setting_view(*s)),
    {
        let ghost sv = setting_view(*s);
        let ghost d = self@;
        let ghost h = backend::requests(*b);
        proof {
            reveal(ready);
            reveal(advance);
            reveal(asks);
        }
        if !(self.is_working() && self.has_value(p) && self.kind(p) != Kind::Value(MachTy::F64)) {
            return false;
        }
        proof {
            working_can_add(d, h, sv);
            value_stands(d, h, p, sv);
        }
        let v: u32 = self.id(p);
        let x: u32 = backend::int_test_imm(b, cond, v, imm);
        proof {
            let r = Request::IntTestImm { cond, a: v, imm, made: x };
            push_is_concat(h, r);
            made_stays(h, r);
            link_one(d, h, r, Kind::Value(MachTy::I8), EntView { id: x, aux: Seq::empty() }, sv);
        }
        self.note(Kind::Value(MachTy::I8), Ent { id: x, aux: no_more() }, true, false);
        true
    }

    /// A condition on two doubles.
    fn do_float_test(&mut self, b: &mut FunctionBuilder<'_>, s: &Setting, cond: FloatCond, p: usize, q: usize) -> (r: bool)
        requires
            linked(old(self)@, backend::requests(*old(b)), setting_view(*s)),
            backend::built_params(*old(b)) == s.params@,
        ensures
            answers(r, old(self)@, final(self)@, *old(b), *final(b), (OpView::FloatTest { cond, a: p, b: q }), setting_view(*s)),
    {
        let ghost sv = setting_view(*s);
        let ghost d = self@;
        let ghost h = backend::requests(*b);
        proof {
            reveal(ready);
            reveal(advance);
            reveal(asks);
        }
        if !(self.is_working() && self.kind(p) == Kind::Value(MachTy::F64) && self.kind(q) == Kind::Value(MachTy::F64)) {
            return false;
        }
        proof {
            working_can_add(d, h, sv);
            entity_stands(d, h, p, sv);
            entity_stands(d, h, q, sv);
        }
        let (v, w) = (self.id(p), self.id(q));
        let x: u32 = backend::float_test(b, cond, v, w);
        proof {
            let r = Request::FloatTest { cond, a: v, b: w, made: x };
            push_is_concat(h, r);
            made_stays(h, r);
            link_one(d, h, r, Kind::Value(MachTy::I8), EntView { id: x, aux: Seq::empty() }, sv);
        }
        self.note(Kind::Value(MachTy::I8), Ent { id: x, aux: no_more() }, true, false);
        true
    }

    /// An integer as a double.
    fn do_from_int(&mut self, b: &mut FunctionBuilder<'_>, s: &Setting, p: usize) -> (r: bool)
        requires
            linked(old(self)@, backend::requests(*old(b)), setting_view(*s)),
            backend::built_params(*old(b)) == s.params@,
        ensures
            answers(r, old(self)@, final(self)@, *old(b), *final(b), OpView::FcvtFromSint(p), setting_view(*s)),
    {
        let ghost sv = setting_view(*s);
        let ghost d = self@;
        let ghost h = backend::requests(*b);
        proof {
            reveal(ready);
            reveal(advance);
            reveal(asks);
        }
        if !(self.is_working() && self.kind(p) == Kind::Value(MachTy::I64)) {
            return false;
        }
        proof {
            working_can_add(d, h, sv);
            entity_stands(d, h, p, sv);
        }
        let v: u32 = self.id(p);
        let x: u32 = backend::fcvt_from_sint(b, v);
        proof {
            let r = Request::FromInt { a: v, made: x };
            push_is_concat(h, r);
            made_stays(h, r);
            link_one(d, h, r, Kind::Value(MachTy::F64), EntView { id: x, aux: Seq::empty() }, sv);
        }
        self.note(Kind::Value(MachTy::F64), Ent { id: x, aux: no_more() }, true, false);
        true
    }

    /// The address of a function.
    fn do_func_addr(&mut self, b: &mut FunctionBuilder<'_>, s: &Setting, p: usize) -> (r: bool)
        requires
            linked(old(self)@, backend::requests(*old(b)), setting_view(*s)),
            backend::built_params(*old(b)) == s.params@,
        ensures
            answers(r, old(self)@, final(self)@, *old(b), *final(b), OpView::FuncAddr(p), setting_view(*s)),
    {
        let ghost sv = setting_view(*s);
        let ghost d = self@;
        let ghost h = backend::requests(*b);
        proof {
            reveal(ready);
            reveal(advance);
            reveal(asks);
        }
        if !(self.is_working() && is_func(self.kind(p))) {
            return false;
        }
        proof {
            working_can_add(d, h, sv);
            entity_stands(d, h, p, sv);
        }
        let ty = machine(ClifTy::Ptr, s.wide);
        let f: u32 = self.id(p);
        let x: u32 = backend::func_addr(b, ty, f);
        proof {
            let r = Request::FuncAddr { callee: f, ty, made: x };
            push_is_concat(h, r);
            made_stays(h, r);
            link_one(d, h, r, Kind::Value(ty), EntView { id: x, aux: Seq::empty() }, sv);
        }
        self.note(Kind::Value(ty), Ent { id: x, aux: no_more() }, true, false);
        true
    }

    /// The address of a stack slot.
    fn do_stack_addr(&mut self, b: &mut FunctionBuilder<'_>, s: &Setting, p: usize) -> (r: bool)
        requires
            linked(old(self)@, backend::requests(*old(b)), setting_view(*s)),
            backend::built_params(*old(b)) == s.params@,
        ensures
            answers(r, old(self)@, final(self)@, *old(b), *final(b), OpView::StackAddr(p), setting_view(*s)),
    {
        let ghost sv = setting_view(*s);
        let ghost d = self@;
        let ghost h = backend::requests(*b);
        proof {
            reveal(ready);
            reveal(advance);
            reveal(asks);
        }
        if !(self.is_working() && self.kind(p) == Kind::Slot) {
            return false;
        }
        proof {
            working_can_add(d, h, sv);
            entity_stands(d, h, p, sv);
        }
        let ty = machine(ClifTy::Ptr, s.wide);
        let slot: u32 = self.id(p);
        let x: u32 = backend::stack_addr(b, ty, slot);
        proof {
            let r = Request::SlotAddr { slot, ty, made: x };
            push_is_concat(h, r);
            made_stays(h, r);
            link_one(d, h, r, Kind::Value(ty), EntView { id: x, aux: Seq::empty() }, sv);
        }
        self.note(Kind::Value(ty), Ent { id: x, aux: no_more() }, true, false);
        true
    }

    /// The pointer at an address.
    fn do_load(&mut self, b: &mut FunctionBuilder<'_>, s: &Setting, p: usize) -> (r: bool)
        requires
            linked(old(self)@, backend::requests(*old(b)), setting_view(*s)),
            backend::built_params(*old(b)) == s.params@,
        ensures
            answers(r, old(self)@, final(self)@, *old(b), *final(b), OpView::LoadPtr(p), setting_view(*s)),
    {
        let ghost sv = setting_view(*s);
        let ghost d = self@;
        let ghost h = backend::requests(*b);
        proof {
            reveal(ready);
            reveal(advance);
            reveal(asks);
        }
        if !(self.is_working() && self.has_value(p)) {
            return false;
        }
        proof {
            working_can_add(d, h, sv);
            value_stands(d, h, p, sv);
        }
        let ty = machine(ClifTy::Ptr, s.wide);
        let v: u32 = self.id(p);
        let x: u32 = backend::load(b, ty, v);
        proof {
            let r = Request::Load { ty, address: v, made: x };
            push_is_concat(h, r);
            made_stays(h, r);
            link_one(d, h, r, Kind::Value(ty), EntView { id: x, aux: Seq::empty() }, sv);
        }
        self.note(Kind::Value(ty), Ent { id: x, aux: no_more() }, true, false);
        true
    }

    /// Stores a value in a stack slot.
    fn do_store(&mut self, b: &mut FunctionBuilder<'_>, s: &Setting, value: usize, slot: usize, cell: Cell, index: usize) -> (r: bool)
        requires
            linked(old(self)@, backend::requests(*old(b)), setting_view(*s)),
            backend::built_params(*old(b)) == s.params@,
        ensures
            answers(r, old(self)@, final(self)@, *old(b), *final(b), (OpView::StackStore { value, slot, cell, index }), setting_view(*s)),
    {
        let ghost sv = setting_view(*s);
        let ghost d = self@;
        let ghost h = backend::requests(*b);
        proof {
            reveal(ready);
            reveal(advance);
            reveal(asks);
        }
        if !(self.is_working() && self.has_value(value) && self.kind(slot) == Kind::Slot && index <= MAX_CELLS) {
            return false;
        }
        proof {
            working_can_add(d, h, sv);
            value_stands(d, h, value, sv);
            entity_stands(d, h, slot, sv);
        }
        let offset: i32 = match cell {
            Cell::Word => (index * 8) as i32,
            Cell::Byte => index as i32,
        };
        let (v, place) = (self.id(value), self.id(slot));
        backend::stack_store(b, v, place, offset);
        proof {
            let r = Request::Store { value: v, slot: place, offset };
            push_is_concat(h, r);
            made_stays(h, r);
            link_one(d, h, r, Kind::Nothing, EntView { id: 0, aux: Seq::empty() }, sv);
        }
        self.note(Kind::Nothing, Ent { id: 0, aux: no_more() }, true, false);
        true
    }

    /// Returns from the function.
    fn do_return(&mut self, b: &mut FunctionBuilder<'_>, s: &Setting, p: usize) -> (r: bool)
        requires
            linked(old(self)@, backend::requests(*old(b)), setting_view(*s)),
            backend::built_params(*old(b)) == s.params@,
        ensures
            answers(r, old(self)@, final(self)@, *old(b), *final(b), OpView::Return(p), setting_view(*s)),
    {
        let ghost sv = setting_view(*s);
        let ghost d = self@;
        let ghost h = backend::requests(*b);
        proof {
            reveal(ready);
            reveal(advance);
            reveal(asks);
        }
        if !(self.is_working() && self.has_value(p)) {
            return false;
        }
        proof {
            working_can_add(d, h, sv);
            value_stands(d, h, p, sv);
        }
        let v: u32 = self.id(p);
        backend::return_value(b, v);
        proof {
            let r = Request::Return { value: v };
            push_is_concat(h, r);
            made_stays(h, r);
            link_one(d, h, r, Kind::Nothing, EntView { id: 0, aux: Seq::empty() }, sv);
        }
        self.note(Kind::Nothing, Ent { id: 0, aux: no_more() }, true, true);
        true
    }

    /// Calls a function for its result.
    fn do_call(&mut self, b: &mut FunctionBuilder<'_>, s: &Setting, func: usize, args: &Vec<usize>) -> (r: bool)
        requires
            linked(old(self)@, backend::requests(*old(b)), setting_view(*s)),
            backend::built_params(*old(b)) == s.params@,
        ensures
            answers(r, old(self)@, final(self)@, *old(b), *final(b), (OpView::Call { func, args: args@ }), setting_view(*s)),
    {
        let ghost sv = setting_view(*s);
        let ghost d = self@;
        let ghost h = backend::requests(*b);
        proof {
            reveal(ready);
            reveal(advance);
            reveal(asks);
        }
        if !(self.is_working()) {
            return false;
        }
        let ids = match self.values(args) {
            Some(ids) => ids,
            None => return false,
        };
        proof {
            working_can_add(d, h, sv);
            values_stand(d, h, args@, sv);
        }
        let result = match self.kind(func) {
            Kind::Func(result) => result,
            _ => return false,
        };
        let ty = match result {
            Some(ty) => ty,
            None => return false,
        };
        proof {
            entity_stands(d, h, func, sv);
        }
        let callee: u32 = self.id(func);
        let made = backend::call(b, callee, &ids, result);
        let x: u32 = made[0];
        assert(made@ =~= seq![x]);
        assert(backend::makes_value(Request::Call { callee, args: ids@, result, made: made@ }, x, ty));
        proof {
            let r = Request::Call { callee, args: ids@, result, made: made@ };
            push_is_concat(h, r);
            made_stays(h, r);
            link_one(d, h, r, Kind::Value(ty), EntView { id: x, aux: made@ }, sv);
        }
        self.note(Kind::Value(ty), Ent { id: x, aux: made }, true, false);
        true
    }

    /// Calls a function, and lets its result go.
    fn do_call_void(&mut self, b: &mut FunctionBuilder<'_>, s: &Setting, func: usize, args: &Vec<usize>) -> (r: bool)
        requires
            linked(old(self)@, backend::requests(*old(b)), setting_view(*s)),
            backend::built_params(*old(b)) == s.params@,
        ensures
            answers(r, old(self)@, final(self)@, *old(b), *final(b), (OpView::CallVoid { func, args: args@ }), setting_view(*s)),
    {
        let ghost sv = setting_view(*s);
        let ghost d = self@;
        let ghost h = backend::requests(*b);
        proof {
            reveal(ready);
            reveal(advance);
            reveal(asks);
        }
        if !(self.is_working()) {
            return false;
        }
        let ids = match self.values(args) {
            Some(ids) => ids,
            None => return false,
        };
        proof {
            working_can_add(d, h, sv);
            values_stand(d, h, args@, sv);
        }
        let result = match self.kind(func) {
            Kind::Func(result) => result,
            _ => return false,
        };
        proof {
            entity_stands(d, h, func, sv);
        }
        let callee: u32 = self.id(func);
        let made = backend::call(b, callee, &ids, result);
        proof {
            let r = Request::Call { callee, args: ids@, result, made: made@ };
            push_is_concat(h, r);
            made_stays(h, r);
            link_one(d, h, r, Kind::Nothing, EntView { id: 0, aux: made@ }, sv);
        }
        self.note(Kind::Nothing, Ent { id: 0, aux: made }, true, false);
        true
    }

    /// Branches on a value.
    fn do_brif(&mut self, b: &mut FunctionBuilder<'_>, s: &Setting, cond: usize, then_block: usize, then_args: &Vec<usize>, else_block: usize, else_args: &Vec<usize>) -> (r: bool)
        requires
            linked(old(self)@, backend::requests(*old(b)), setting_view(*s)),
            backend::built_params(*old(b)) == s.params@,
        ensures
            answers(r, old(self)@, final(self)@, *old(b), *final(b), (OpView::Brif { cond, then_block, then_args: then_args@, else_block, else_args: else_args@ }), setting_view(*s)),
    {
        let ghost sv = setting_view(*s);
        let ghost d = self@;
        let ghost h = backend::requests(*b);
        proof {
            reveal(ready);
            reveal(advance);
            reveal(asks);
        }
        if !(self.is_working() && self.has_value(cond) && self.kind(then_block) == Kind::Block && self.kind(else_block) == Kind::Block) {
            return false;
        }
        let xs = match self.values(then_args) {
            Some(ids) => ids,
            None => return false,
        };
        let ys = match self.values(else_args) {
            Some(ids) => ids,
            None => return false,
        };
        proof {
            working_can_add(d, h, sv);
            values_stand(d, h, then_args@, sv);
            values_stand(d, h, else_args@, sv);
            value_stands(d, h, cond, sv);
            entity_stands(d, h, then_block, sv);
            entity_stands(d, h, else_block, sv);
        }
        let c: u32 = self.id(cond);
        let t: u32 = self.id(then_block);
        let f: u32 = self.id(else_block);
        backend::brif(b, c, t, &xs, f, &ys);
        proof {
            let r = Request::Branch { cond: c, then_block: t, then_args: xs@, else_block: f, else_args: ys@ };
            push_is_concat(h, r);
            made_stays(h, r);
            link_one(d, h, r, Kind::Nothing, EntView { id: 0, aux: Seq::empty() }, sv);
        }
        self.note(Kind::Nothing, Ent { id: 0, aux: no_more() }, true, true);
        true
    }

    /// Jumps to a block.
    fn do_jump(&mut self, b: &mut FunctionBuilder<'_>, s: &Setting, block: usize, args: &Vec<usize>) -> (r: bool)
        requires
            linked(old(self)@, backend::requests(*old(b)), setting_view(*s)),
            backend::built_params(*old(b)) == s.params@,
        ensures
            answers(r, old(self)@, final(self)@, *old(b), *final(b), (OpView::Jump { block, args: args@ }), setting_view(*s)),
    {
        let ghost sv = setting_view(*s);
        let ghost d = self@;
        let ghost h = backend::requests(*b);
        proof {
            reveal(ready);
            reveal(advance);
            reveal(asks);
        }
        if !(self.is_working() && self.kind(block) == Kind::Block) {
            return false;
        }
        let xs = match self.values(args) {
            Some(ids) => ids,
            None => return false,
        };
        proof {
            working_can_add(d, h, sv);
            values_stand(d, h, args@, sv);
            entity_stands(d, h, block, sv);
        }
        let t: u32 = self.id(block);
        backend::jump(b, t, &xs);
        proof {
            let r = Request::Jump { block: t, args: xs@ };
            push_is_concat(h, r);
            made_stays(h, r);
            link_one(d, h, r, Kind::Nothing, EntView { id: 0, aux: Seq::empty() }, sv);
        }
        self.note(Kind::Nothing, Ent { id: 0, aux: no_more() }, true, true);
        true
    }

    /// Makes a block.
    fn do_block(&mut self, b: &mut FunctionBuilder<'_>, s: &Setting) -> (r: bool)
        requires
            linked(old(self)@, backend::requests(*old(b)), setting_view(*s)),
            backend::built_params(*old(b)) == s.params@,
        ensures
            answers(r, old(self)@, final(self)@, *old(b), *final(b), OpView::CreateBlock, setting_view(*s)),
    {
        let ghost sv = setting_view(*s);
        let ghost d = self@;
        let ghost h = backend::requests(*b);
        proof {
            reveal(ready);
            reveal(advance);
            reveal(asks);
        }
        if self.sealed {
            return false;
        }
        let x: u32 = backend::create_block(b);
        proof {
            push_is_concat(h, Request::Block { made: x });
            link_block(d, h, EntView { id: x, aux: Seq::empty() }, sv);
        }
        let plain = self.plain;
        self.note(Kind::Block, Ent { id: x, aux: no_more() }, false, false);
        self.plain = plain;
        true
    }

    /// Goes on in a block.
    fn do_switch(&mut self, b: &mut FunctionBuilder<'_>, s: &Setting, p: usize) -> (r: bool)
        requires
            linked(old(self)@, backend::requests(*old(b)), setting_view(*s)),
            backend::built_params(*old(b)) == s.params@,
        ensures
            answers(r, old(self)@, final(self)@, *old(b), *final(b), OpView::SwitchTo(p), setting_view(*s)),
    {
        let ghost sv = setting_view(*s);
        let ghost d = self@;
        let ghost h = backend::requests(*b);
        proof {
            reveal(ready);
            reveal(advance);
            reveal(asks);
        }
        if self.kind(p) != Kind::Block || self.sealed || self.filled[p] {
            return false;
        }
        match self.place {
            Some(at) => {
                if self.touched[at] && !self.filled[at] {
                    return false;
                }
                assert(d.touched[at as int] == backend::touched(h, d.ents[at as int].id));
                assert(d.filled[at as int] == backend::filled(h, d.ents[at as int].id));
            },
            None => {},
        }
        let block: u32 = self.id(p);
        proof {
            entity_stands(d, h, p, sv);
            assert(d.filled[p as int] == backend::filled(h, d.ents[p as int].id));
        }
        backend::switch_to_block(b, block);
        proof {
            push_is_concat(h, Request::Switch { block });
            link_switch(d, h, p, EntView { id: 0, aux: Seq::empty() }, sv);
        }
        let plain = self.plain;
        self.note(Kind::Nothing, Ent { id: 0, aux: no_more() }, false, false);
        self.plain = plain;
        self.place = Some(p);
        true
    }

    /// Gives a block the parameters of the function.
    fn do_function_params(&mut self, b: &mut FunctionBuilder<'_>, s: &Setting, p: usize) -> (r: bool)
        requires
            linked(old(self)@, backend::requests(*old(b)), setting_view(*s)),
            backend::built_params(*old(b)) == s.params@,
            has_room(old(self)@, backend::requests(*old(b)), OpView::FunctionParams(p), setting_view(*s)),
        ensures
            answers(r, old(self)@, final(self)@, *old(b), *final(b), OpView::FunctionParams(p), setting_view(*s)),
    {
        let ghost sv = setting_view(*s);
        let ghost d = self@;
        let ghost h = backend::requests(*b);
        proof {
            reveal(ready);
            reveal(advance);
            reveal(asks);
        }
        if self.kind(p) != Kind::Block || !self.plain || self.sealed {
            return false;
        }
        let block: u32 = self.id(p);
        proof {
            entity_stands(d, h, p, sv);
        }
        let made = backend::function_params(b, block);
        let params = made.clone();
        assert(params@ =~= made@);
        proof {
            let r = Request::FunctionParams { block, types: sv.params, made: made@ };
            push_is_concat(h, r);
            made_stays(h, r);
            link_one(d, h, r, Kind::Nothing, EntView { id: 0, aux: made@ }, sv);
            assert forall|i: int| 0 <= i < made@.len() implies backend::is_value(h.push(r), #[trigger] made@[i], sv.params[i]) by {
                assert(backend::is_param(sv.params, made@, made@[i], sv.params[i]));
                assert(backend::makes_value(r, made@[i], sv.params[i]));
            }
        }
        self.note(Kind::Nothing, Ent { id: 0, aux: made }, false, false);
        self.entry = Some(p);
        self.params = params;
        true
    }

    /// A parameter of the function.
    fn do_block_param(&mut self, b: &mut FunctionBuilder<'_>, s: &Setting, block: usize, index: usize) -> (r: bool)
        requires
            linked(old(self)@, backend::requests(*old(b)), setting_view(*s)),
            backend::built_params(*old(b)) == s.params@,
        ensures
            answers(r, old(self)@, final(self)@, *old(b), *final(b), (OpView::BlockParam { block, index }), setting_view(*s)),
    {
        let ghost sv = setting_view(*s);
        let ghost d = self@;
        let ghost h = backend::requests(*b);
        proof {
            reveal(ready);
            reveal(advance);
            reveal(asks);
        }
        match self.entry {
            Some(p) => {
                if p != block {
                    return false;
                }
            },
            None => return false,
        }
        if index >= self.params.len() {
            return false;
        }
        let x: u32 = self.params[index];
        let ty = s.params[index];
        proof {
            assert(backend::is_value(h, d.params[index as int], sv.params[index as int]));
            link_none(d, h, Kind::Value(sv.params[index as int]), EntView { id: x, aux: Seq::empty() }, sv);
            assert(h + Seq::<Request>::empty() =~= h);
        }
        self.note(Kind::Value(ty), Ent { id: x, aux: no_more() }, false, false);
        true
    }

    /// Gives a block a parameter.
    fn do_append_param(&mut self, b: &mut FunctionBuilder<'_>, s: &Setting, block: usize, ty: ClifTy) -> (r: bool)
        requires
            linked(old(self)@, backend::requests(*old(b)), setting_view(*s)),
            backend::built_params(*old(b)) == s.params@,
            has_room(old(self)@, backend::requests(*old(b)), (OpView::AppendParam { block, ty }), setting_view(*s)),
        ensures
            answers(r, old(self)@, final(self)@, *old(b), *final(b), (OpView::AppendParam { block, ty }), setting_view(*s)),
    {
        let ghost sv = setting_view(*s);
        let ghost d = self@;
        let ghost h = backend::requests(*b);
        proof {
            reveal(ready);
            reveal(advance);
            reveal(asks);
        }
        if self.kind(block) != Kind::Block || self.sealed || self.touched[block] {
            return false;
        }
        let t = machine(ty, s.wide);
        let at: u32 = self.id(block);
        proof {
            entity_stands(d, h, block, sv);
            assert(d.touched[block as int] == backend::touched(h, d.ents[block as int].id));
        }
        let x: u32 = backend::append_block_param(b, at, t);
        proof {
            let r = Request::AppendParam { block: at, ty: t, made: x };
            push_is_concat(h, r);
            made_stays(h, r);
            link_one(d, h, r, Kind::Value(t), EntView { id: x, aux: Seq::empty() }, sv);
        }
        self.note(Kind::Value(t), Ent { id: x, aux: no_more() }, false, false);
        true
    }

    /// Declares a variable.
    fn do_declare(&mut self, b: &mut FunctionBuilder<'_>, s: &Setting, var: VarId, ty: ClifTy) -> (r: bool)
        requires
            linked(old(self)@, backend::requests(*old(b)), setting_view(*s)),
            backend::built_params(*old(b)) == s.params@,
        ensures
            answers(r, old(self)@, final(self)@, *old(b), *final(b), (OpView::DeclareVar { var, ty }), setting_view(*s)),
    {
        let ghost sv = setting_view(*s);
        let ghost d = self@;
        let ghost h = backend::requests(*b);
        proof {
            reveal(ready);
            reveal(advance);
            reveal(asks);
        }
        let t = machine(ty, s.wide);
        let x: u32 = backend::declare_var(b, t);
        proof {
            let r = Request::Declare { ty: t, made: x };
            push_is_concat(h, r);
            made_stays(h, r);
            link_one(d, h, r, Kind::Nothing, EntView { id: x, aux: Seq::empty() }, sv);
        }
        self.note(Kind::Nothing, Ent { id: x, aux: no_more() }, false, false);
        self.vars.insert(var.0, (x, t));
        true
    }

    /// Gives a variable a value.
    fn do_define(&mut self, b: &mut FunctionBuilder<'_>, s: &Setting, var: VarId, value: usize) -> (r: bool)
        requires
            linked(old(self)@, backend::requests(*old(b)), setting_view(*s)),
            backend::built_params(*old(b)) == s.params@,
        ensures
            answers(r, old(self)@, final(self)@, *old(b), *final(b), (OpView::DefVar { var, value }), setting_view(*s)),
    {
        let ghost sv = setting_view(*s);
        let ghost d = self@;
        let ghost h = backend::requests(*b);
        proof {
            reveal(ready);
            reveal(advance);
            reveal(asks);
        }
        if !self.vars.contains_key(&var.0) || self.place.is_none() {
            return false;
        }
        let (variable, ty) = *self.vars.get(&var.0).unwrap();
        if self.kind(value) != Kind::Value(ty) {
            return false;
        }
        let v: u32 = self.id(value);
        proof {
            value_stands(d, h, value, sv);
            assert(d.vars.contains_key(var.0));
            assert(backend::is_variable(h, d.vars[var.0].0, d.vars[var.0].1));
        }
        backend::def_var(b, variable, v);
        proof {
            let r = Request::Define { var: variable, value: v };
            push_is_concat(h, r);
            made_stays(h, r);
            link_one(d, h, r, Kind::Nothing, EntView { id: 0, aux: Seq::empty() }, sv);
        }
        self.note(Kind::Nothing, Ent { id: 0, aux: no_more() }, false, false);
        true
    }

    /// Makes a stack slot.
    fn do_slot(&mut self, b: &mut FunctionBuilder<'_>, s: &Setting, cell: Cell, count: usize) -> (r: bool)
        requires
            linked(old(self)@, backend::requests(*old(b)), setting_view(*s)),
            backend::built_params(*old(b)) == s.params@,
        ensures
            answers(r, old(self)@, final(self)@, *old(b), *final(b), (OpView::StackSlot { cell, count }), setting_view(*s)),
    {
        let ghost sv = setting_view(*s);
        let ghost d = self@;
        let ghost h = backend::requests(*b);
        proof {
            reveal(ready);
            reveal(advance);
            reveal(asks);
        }
        if count > MAX_CELLS {
            return false;
        }
        let (bytes, shift): (u32, u8) = match cell {
            Cell::Word => ((count * 8) as u32, 3),
            Cell::Byte => (count as u32, 0),
        };
        let x: u32 = backend::create_slot(b, bytes, shift);
        proof {
            let r = Request::Slot { bytes, align_shift: shift, made: x };
            push_is_concat(h, r);
            made_stays(h, r);
            link_one(d, h, r, Kind::Slot, EntView { id: x, aux: Seq::empty() }, sv);
        }
        self.note(Kind::Slot, Ent { id: x, aux: no_more() }, false, false);
        true
    }

    /// Declares the blocks complete.
    fn do_seal(&mut self, b: &mut FunctionBuilder<'_>, s: &Setting) -> (r: bool)
        requires
            linked(old(self)@, backend::requests(*old(b)), setting_view(*s)),
            backend::built_params(*old(b)) == s.params@,
            has_room(old(self)@, backend::requests(*old(b)), OpView::SealAll, setting_view(*s)),
        ensures
            answers(r, old(self)@, final(self)@, *old(b), *final(b), OpView::SealAll, setting_view(*s)),
    {
        let ghost sv = setting_view(*s);
        let ghost d = self@;
        let ghost h = backend::requests(*b);
        proof {
            reveal(ready);
            reveal(advance);
            reveal(asks);
        }
        if self.sealed {
            return false;
        }
        backend::seal_all_blocks(b);
        proof {
            push_is_concat(h, Request::Seal);
            link_seal(d, h, EntView { id: 0, aux: Seq::empty() }, sv);
        }
        self.note(Kind::Nothing, Ent { id: 0, aux: no_more() }, false, false);
        self.sealed = true;
        true
    }

    /// Makes a reference to function `func` of the module, which has this result.
    fn import(&mut self, b: &mut FunctionBuilder<'_>, m: &mut ObjectModule, s: &Setting, func: u32, result: Option<MachTy>, Ghost(op): Ghost<OpView>)
        requires
            linked(old(self)@, backend::requests(*old(b)), setting_view(*s)),
            backend::built_params(*old(b)) == s.params@,
            backend::functions(*old(m)).contains_key(func),
            backend::functions(*old(m))[func].result == result,
            !(op is DeclareVar),
            ready(old(self)@, op, setting_view(*s)),
            forall|e: EntView| #[trigger] asks(old(self)@, op, e, setting_view(*s)) == seq![Request::ImportFunc { func, result, made: e.id }],
            forall|e: EntView| #[trigger] advance(old(self)@, op, e, setting_view(*s)) == noted(old(self)@, Kind::Func(result), e, false, false),
            forall|e: EntView, data: Map<u32, DataDecl>| #[trigger] fits(old(self)@, op, e, data),
        ensures
            answers(true, old(self)@, final(self)@, *old(b), *final(b), op, setting_view(*s)),
            backend::same_module(*old(m), *final(m)),
    {
        let ghost sv = setting_view(*s);
        let ghost d = self@;
        let ghost h = backend::requests(*b);
        let x: u32 = backend::import_func(m, b, func);
        proof {
            let r = Request::ImportFunc { func, result, made: x };
            push_is_concat(h, r);
            made_stays(h, r);
            link_one(d, h, r, Kind::Func(result), EntView { id: x, aux: Seq::empty() }, sv);
        }
        self.note(Kind::Func(result), Ent { id: x, aux: no_more() }, false, false);
        assert(self@ == advance(d, op, EntView { id: x, aux: Seq::empty() }, sv));
    }

    /// The address of a data object.
    fn do_data_addr(&mut self, b: &mut FunctionBuilder<'_>, m: &ObjectModule, s: &Setting, p: usize) -> (r: bool)
        requires
            linked(old(self)@, backend::requests(*old(b)), setting_view(*s)),
            backend::built_params(*old(b)) == s.params@,
            has_data(old(self)@, backend::data_objects(*m)),
        ensures
            answers(r, old(self)@, final(self)@, *old(b), *final(b), OpView::DataAddr(p), setting_view(*s)),
    {
        let ghost sv = setting_view(*s);
        let ghost d = self@;
        let ghost h = backend::requests(*b);
        proof {
            reveal(ready);
            reveal(advance);
            reveal(asks);
        }
        if !(self.is_working() && self.kind(p) == Kind::Data) {
            return false;
        }
        let ty = machine(ClifTy::Ptr, s.wide);
        let data: u32 = self.id(p);
        assert(d.kinds[p as int] == Kind::Data);
        let g: u32 = backend::import_data(m, b, data);
        let ghost r1 = Request::ImportData { data, made: g };
        let ghost h1 = h.push(r1);
        let ghost d1 = Desk { plain: false, ..d };
        proof {
            made_stays(h, r1);
            assert(linked(d1, h, sv));
            link_extend(d1, h, r1, sv);
            assert(working(d1));
            working_can_add(d1, h1, sv);
            assert(h1.contains(r1));
        }
        let x: u32 = backend::global_value(b, ty, g);
        let mut aux: Vec<u32> = Vec::new();
        aux.push(g);
        assert(aux@ =~= seq![g]);
        proof {
            let r2 = Request::DataAddr { global: g, ty, made: x };
            made_stays(h1, r2);
            link_one(d1, h1, r2, Kind::Value(ty), EntView { id: x, aux: aux@ }, sv);
            assert(h1.push(r2) =~= h + seq![r1, r2]);
        }
        self.note(Kind::Value(ty), Ent { id: x, aux }, true, false);
        true
    }

    /// A data object with the bytes of a text, or with eight zero bytes.
    fn do_data(&mut self, b: &FunctionBuilder<'_>, m: &mut ObjectModule, s: &Setting, op: &Op) -> (r: Result<(), CodegenError>)
        requires
            linked(old(self)@, backend::requests(*b), setting_view(*s)),
            has_data(old(self)@, backend::data_objects(*old(m))),
            backend::origin(*old(m)) is Some,
            op@ is TextData || op@ is ZeroData,
        ensures
            backend::functions(*final(m)) == backend::functions(*old(m)),
            backend::bodies(*final(m)) == backend::bodies(*old(m)),
            backend::origin(*final(m)) == backend::origin(*old(m)),
            r is Ok,
            carried(old(self)@, final(self)@, backend::requests(*b), backend::requests(*b), op@, setting_view(*s)),
            fits(old(self)@, op@, final(self)@.ents.last(), backend::data_objects(*final(m))),
            data_kept(backend::data_objects(*old(m)), backend::data_objects(*final(m))),
            has_data(final(self)@, backend::data_objects(*final(m))),
    {
        let ghost sv = setting_view(*s);
        let ghost d = self@;
        let ghost h = backend::requests(*b);
        proof {
            reveal(ready);
            reveal(advance);
            reveal(asks);
        }
        let writable = match op {
            Op::ZeroData => true,
            _ => false,
        };
        let id: u32 = match backend::declare_data(m, writable) {
            Ok(id) => id,
            Err(e) => return Err(CodegenError::Module(e)),
        };
        let defined = match op {
            Op::TextData(t) => backend::define_text(m, id, t.as_str()),
            _ => backend::define_zeros(m, id, 8),
        };
        match defined {
            Ok(_) => {},
            Err(e) => return Err(CodegenError::Module(e)),
        }
        proof {
            link_none(d, h, Kind::Data, EntView { id, aux: Seq::empty() }, sv);
            assert(h + Seq::<Request>::empty() =~= h);
        }
        self.note(Kind::Data, Ent { id, aux: no_more() }, false, false);
        assert(self@ == advance(d, op@, EntView { id, aux: Seq::empty() }, sv));
        Ok(())
    }
}

fn is_func(k: Kind) -> (r: bool)
    ensures
        r == (k is Func),
{
    match k {
        Kind::Func(_) => true,
        _ => false,
    }
}

/// The type of an arithmetic instruction.
fn arith(op: Arith) -> (r: MachTy)
    ensures
        r == backend::arith_ty(op),
{
    match op {
        Arith::Iadd | Arith::Isub | Arith::Imul | Arith::Smulhi => MachTy::I64,
        Arith::Fadd | Arith::Fsub | Arith::Fmul | Arith::Fdiv => MachTy::F64,
    }
}

/// Why a plan was not carried out.
pub open spec fn refusal() -> Seq<char> {
    "a plan that cannot be carried out"@
}

proof fn advance_pushes(d: Desk, op: OpView, e: EntView, s: SettingView, data: Map<u32, DataDecl>)
    ensures
        advance(d, op, e, s).ents == d.ents.push(e),
        has_data(d, data) && d.kinds.len() == d.ents.len() && !(op is TextData) && !(op is ZeroData) ==> has_data(advance(d, op, e, s), data),
{
    reveal(advance);
    let d1 = advance(d, op, e, s);
    if has_data(d, data) && d.kinds.len() == d.ents.len() && !(op is TextData) && !(op is ZeroData) {
        assert(kind_of(d, op, s) != Kind::Data);
        assert forall|p: int| 0 <= p < d1.kinds.len() && #[trigger] d1.kinds[p] == Kind::Data implies data.contains_key(d1.ents[p].id) by {
            assert(p < d.kinds.len());
            assert(d.kinds[p] == Kind::Data);
        }
    }
}

/// What fits goes on fitting.
proof fn fit_stays(d: Desk, op: OpView, e: EntView, a: Map<u32, DataDecl>, b: Map<u32, DataDecl>)
    requires
        fits(d, op, e, a),
        data_kept(a, b),
    ensures
        fits(d, op, e, b),
{
}

impl DeskState {
    /// Carries out one request of a plan that asks nothing of the module.
    fn carry_plain(&mut self, b: &mut FunctionBuilder<'_>, s: &Setting, op: &Op) -> (r: bool)
        requires
            linked(old(self)@, backend::requests(*old(b)), setting_view(*s)),
            backend::built_params(*old(b)) == s.params@,
            !(op@ is ImportRt),
            !(op@ is ImportUser),
            !(op@ is TextData),
            !(op@ is ZeroData),
            !(op@ is DataAddr),
            has_room(old(self)@, backend::requests(*old(b)), op@, setting_view(*s)),
        ensures
            answers(r, old(self)@, final(self)@, *old(b), *final(b), op@, setting_view(*s)),
    {
        match op {
            Op::CreateBlock => self.do_block(b, s),
            Op::SwitchTo(p) => self.do_switch(b, s, *p),
            Op::FunctionParams(p) => self.do_function_params(b, s, *p),
            Op::BlockParam { block, index } => self.do_block_param(b, s, *block, *index),
            Op::AppendParam { block, ty } => self.do_append_param(b, s, *block, *ty),
            Op::DeclareVar { var, ty } => self.do_declare(b, s, *var, *ty),
            Op::DefVar { var, value } => self.do_define(b, s, *var, *value),
            Op::UseVar(var) => self.do_use(b, s, *var),
            Op::Iconst { ty, value } => self.do_iconst(b, s, *ty, *value),
            Op::F64const(bits) => self.do_f64const(b, s, *bits),
            Op::Binary { op, a, b: q } => self.do_binary(b, s, *op, *a, *q),
            Op::IntTest { cond, a, b: q } => self.do_int_test(b, s, *cond, *a, *q),
            Op::IntTestImm { cond, a, imm } => self.do_int_test_imm(b, s, *cond, *a, *imm),
            Op::FloatTest { cond, a, b: q } => self.do_float_test(b, s, *cond, *a, *q),
            Op::FcvtFromSint(a) => self.do_from_int(b, s, *a),
            Op::Call { func, args } => self.do_call(b, s, *func, args),
            Op::CallVoid { func, args } => self.do_call_void(b, s, *func, args),
            Op::FuncAddr(f) => self.do_func_addr(b, s, *f),
            Op::StackSlot { cell, count } => self.do_slot(b, s, *cell, *count),
            Op::StackStore { value, slot, cell, index } => self.do_store(b, s, *value, *slot, *cell, *index),
            Op::StackAddr(slot) => self.do_stack_addr(b, s, *slot),
            Op::LoadPtr(a) => self.do_load(b, s, *a),
            Op::Brif { cond, then_block, then_args, else_block, else_args } => self.do_brif(b, s, *cond, *then_block, then_args, *else_block, else_args),
            Op::Jump { block, args } => self.do_jump(b, s, *block, args),
            Op::Return(a) => self.do_return(b, s, *a),
            _ => self.do_seal(b, s),
        }
    }

    /// Carries out one request of a plan.
    fn carry(&mut self, b: &mut FunctionBuilder<'_>, m: &mut ObjectModule, s: &Setting, op: &Op) -> (r: Result<(), CodegenError>)
        requires
            linked(old(self)@, backend::requests(*old(b)), setting_view(*s)),
            backend::built_params(*old(b)) == s.params@,
            setting_ok(*s, backend::functions(*old(m))),
            has_data(old(self)@, backend::data_objects(*old(m))),
            backend::origin(*old(m)) is Some,
            has_room(old(self)@, backend::requests(*old(b)), op@, setting_view(*s)),
        ensures
            backend::functions(*final(m)) == backend::functions(*old(m)),
            backend::bodies(*final(m)) == backend::bodies(*old(m)),
            backend::origin(*final(m)) == backend::origin(*old(m)),
            backend::outcome(*final(b)) == backend::outcome(*old(b)),
            backend::built_params(*final(b)) == backend::built_params(*old(b)),
            match r {
                Ok(_) => {
                    &&& carried(old(self)@, final(self)@, backend::requests(*old(b)), backend::requests(*final(b)), op@, setting_view(*s))
                    &&& fits(old(self)@, op@, final(self)@.ents.last(), backend::data_objects(*final(m)))
                    &&& data_kept(backend::data_objects(*old(m)), backend::data_objects(*final(m)))
                    &&& has_data(final(self)@, backend::data_objects(*final(m)))
                },
                Err(e) => !ready(old(self)@, op@, setting_view(*s)) && e@ == ErrorView::Codegen(refusal()),
            },
    {
        let ghost sv = setting_view(*s);
        let ghost d = self@;
        let ghost data = backend::data_objects(*m);
        let done = match op {
            Op::TextData(_) => return self.do_data(b, m, s, op),
            Op::ZeroData => return self.do_data(b, m, s, op),
            Op::DataAddr(p) => self.do_data_addr(b, m, s, *p),
            Op::ImportRt(f) => {
                proof {
                    reveal(ready);
                    reveal(advance);
                    reveal(asks);
                    bridge::declared_exactly_once(*f, bridge::rt_index(*f));
                }
                let i: usize = f.index();
                let func: u32 = s.rt[i];
                let result = match f.result() {
                    Some(ty) => Some(machine(ty, s.wide)),
                    None => None,
                };
                self.import(b, m, s, func, result, Ghost(op@));
                true
            },
            Op::ImportUser(name) => {
                proof {
                    reveal(ready);
                    reveal(advance);
                    reveal(asks);
                }
                match find_user(&s.users, name.as_str()) {
                    None => false,
                    Some(i) => {
                        let func: u32 = s.users[i].1;
                        assert(users_view(s.users@)[i as int].1 == func);
                        self.import(b, m, s, func, Some(machine(ClifTy::Ptr, s.wide)), Ghost(op@));
                        true
                    },
                }
            },
            _ => self.carry_plain(b, s, op),
        };
        if done {
            proof {
                let e = self@.ents.last();
                advance_pushes(d, op@, e, sv, data);
                assert(fits(d, op@, e, data));
            }
            Ok(())
        } else {
            Err(CodegenError::Codegen("a plan that cannot be carried out".to_owned()))
        }
    }

    /// Every block with an instruction has come to its end.
    fn all_closed(&self) -> (r: bool)
        requires
            self@.touched.len() == self@.filled.len(),
        ensures
            r == is_closed(self@),
    {
        let mut i: usize = 0;
        while i < self.touched.len()
            invariant
                i <= self.touched@.len(),
                self@.touched == self.touched@,
                self@.filled == self.filled@,
                self@.touched.len() == self@.filled.len(),
                forall|p: int| 0 <= p < i && #[trigger] self.touched@[p] ==> self.filled@[p],
            decreases self.touched@.len() - i,
        {
            if self.touched[i] && !self.filled[i] {
                assert(self@.touched[i as int] && !self@.filled[i as int]);
                return false;
            }
            i += 1;
        }
        true
    }

    /// The block that instructions went to last has come to its end.
    fn over(&self) -> (r: bool)
        ensures
            r == is_over(self@),
    {
        match self.place {
            Some(p) => p < self.filled.len() && self.filled[p],
            None => false,
        }
    }
}

proof fn complete(d: Desk, h: Seq<Request>, s: SettingView)
    requires
        linked(d, h, s),
        d.sealed,
        is_closed(d),
        is_over(d),
    ensures
        backend::is_complete(h),
{
    let at = d.place->0 as int;
    assert(d.filled[at] == backend::filled(h, d.ents[at].id));
    assert forall|b: u32| backend::touched(h, b) implies #[trigger] backend::filled(h, b) by {
        let p = choose|p: int| 0 <= p < d.kinds.len() && d.kinds[p] == Kind::Block && (#[trigger] d.ents[p]).id == b;
        assert(d.touched[p] == backend::touched(h, d.ents[p].id));
        assert(d.filled[p] == backend::filled(h, d.ents[p].id));
    }
}

/// A request that cannot be carried out shows that the plan is not sound.
proof fn not_sound(ops: Seq<OpView>, ents: Seq<EntView>, i: int, s: SettingView)
    requires
        0 <= i < ops.len(),
        forall|k: int| 0 <= k < i ==> ready(run(ops, ents, k, s), #[trigger] ops[k], s),
        !ready(run(ops, ents, i, s), ops[i], s),
    ensures
        !is_sound(ops, s),
{
    shape_stays(ops, ents, i, s);
    let a = run(ops, ents, i, s);
    let b = run(ops, blank(ops.len()), i, s);
    if ready(b, ops[i], s) {
        assert(same_shape(b, a)) by {
            assert forall|v: u32| #[trigger] b.vars.contains_key(v) implies b.vars[v].1 == a.vars[v].1 by {
                assert(a.vars.dom().contains(v));
                assert(a.vars.contains_key(v));
            }
        }
        shape_step(b, a, ops[i], EntView { id: 0, aux: Seq::empty() }, EntView { id: 0, aux: Seq::empty() }, s);
    }
}

/// What one more request of a plan refers to is known to the module.
proof fn asks_resolved(d: Desk, op: OpView, e: EntView, h: Seq<Request>, s: Setting, funcs: Map<u32, backend::FuncDecl>, data: Map<u32, DataDecl>)
    requires
        ready(d, op, setting_view(s)),
        setting_ok(s, funcs),
        has_data(d, data),
        backend::all_resolved(h, funcs, data),
    ensures
        backend::all_resolved(h + asks(d, op, e, setting_view(s)), funcs, data),
{
    reveal(ready);
    reveal(asks);
    let more = asks(d, op, e, setting_view(s));
    let all = h + more;
    assert forall|k: int| 0 <= k < all.len() implies backend::is_resolved(#[trigger] all[k], funcs, data) by {
        if k < h.len() {
            assert(all[k] == h[k]);
        } else {
            assert(all[k] == more[k - h.len()]);
            match op {
                OpView::ImportRt(f) => {
                    assert(funcs.contains_key(s.rt@[bridge::rt_index(f)]));
                },
                OpView::ImportUser(name) => {
                    user_at_bounds(users_view(s.users@), name, 0);
                    let i = user_at(users_view(s.users@), name, 0);
                    assert(funcs.contains_key(s.users@[i].1));
                },
                OpView::DataAddr(p) => {
                    assert(d.kinds[p as int] == Kind::Data);
                },
                _ => {},
            }
        }
    }
}

proof fn user_at_bounds(users: Seq<(Seq<char>, u32)>, name: Seq<char>, i: int)
    requires
        0 <= i,
    ensures
        0 <= user_at(users, name, i) <= users.len(),
    decreases users.len() - i,
{
    if i < users.len() && users[i].0 != name {
        user_at_bounds(users, name, i + 1);
    }
}

proof fn more_data_resolved(h: Seq<Request>, funcs: Map<u32, backend::FuncDecl>, a: Map<u32, DataDecl>, b: Map<u32, DataDecl>)
    requires
        backend::all_resolved(h, funcs, a),
        data_kept(a, b),
    ensures
        backend::all_resolved(h, funcs, b),
{
    assert forall|k: int| 0 <= k < h.len() implies backend::is_resolved(#[trigger] h[k], funcs, b) by {
        assert(backend::is_resolved(h[k], funcs, a));
    }
}

proof fn frame_of_push(h: Seq<Request>, r: Request)
    ensures
        backend::frame(h.push(r)) == backend::frame(h) + backend::room(r),
{
    assert(h.push(r).drop_last() =~= h);
}

/// The stack slots that the builder is asked for are those of the plan.
proof fn asks_frame(d: Desk, op: OpView, e: EntView, h: Seq<Request>, s: SettingView)
    requires
        ready(d, op, s),
    ensures
        backend::frame(h + asks(d, op, e, s)) == backend::frame(h) + room(op),
{
    reveal(ready);
    reveal(asks);
    let more = asks(d, op, e, s);
    if more.len() == 0 {
        assert(h + more =~= h);
    } else if more.len() == 1 {
        assert(h + more =~= h.push(more[0]));
        frame_of_push(h, more[0]);
        match op {
            OpView::StackSlot { cell, count } => {
                assert(count * cell_bytes(cell) <= 8 * MAX_CELLS) by (nonlinear_arith)
                    requires
                        0 <= count <= MAX_CELLS,
                        cell_bytes(cell) == 8 || cell_bytes(cell) == 1,
                ;
                assert(backend::room(more[0]) == room(op));
            },
            _ => {},
        }
    } else {
        assert(more.len() == 2);
        assert(h + more =~= h.push(more[0]).push(more[1]));
        frame_of_push(h, more[0]);
        frame_of_push(h.push(more[0]), more[1]);
    }
}

proof fn frame_push(ops: Seq<OpView>, n: int)
    requires
        0 <= n < ops.len(),
    ensures
        frame(ops.take(n + 1)) == frame(ops.take(n)) + room(ops[n]),
{
    assert(ops.take(n + 1).drop_last() =~= ops.take(n));
}

proof fn frame_grows(ops: Seq<OpView>, n: int)
    requires
        0 <= n <= ops.len(),
    ensures
        frame(ops.take(n)) <= frame(ops),
    decreases ops.len() - n,
{
    if n < ops.len() {
        frame_push(ops, n);
        frame_grows(ops, n + 1);
    } else {
        assert(ops.take(n) =~= ops);
    }
}

/// The room that one stack slot takes, or nothing where its cells alone outgrow a frame.
fn slot_room(cell: Cell, count: usize) -> (r: Option<u64>)
    ensures
        match r {
            Some(n) => n == room(OpView::StackSlot { cell, count }),
            None => room(OpView::StackSlot { cell, count }) > backend::MAX_FRAME,
        },
{
    if count > backend::MAX_FRAME as usize {
        return None;
    }
    Some(
        match cell {
            Cell::Word => (count as u64) * 8 + 16,
            Cell::Byte => count as u64 + 16,
        },
    )
}

/// The stack slots of a plan fit in a frame.
fn fits_frame(ops: &Vec<Op>) -> (r: bool)
    ensures
        r == (frame(clif::ops_view(ops@)) <= backend::MAX_FRAME),
{
    let ghost plan = clif::ops_view(ops@);
    let mut sum: u64 = 0;
    let mut i: usize = 0;
    assert(plan.take(0) =~= Seq::empty());
    while i < ops.len()
        invariant
            i <= ops@.len(),
            plan == clif::ops_view(ops@),
            sum == frame(plan.take(i as int)),
            sum <= backend::MAX_FRAME,
        decreases ops@.len() - i,
    {
        assert(plan[i as int] == ops@[i as int]@);
        proof {
            frame_push(plan, i as int);
            frame_grows(plan, i + 1);
        }
        match &ops[i] {
            Op::StackSlot { cell, count } => match slot_room(*cell, *count) {
                None => return false,
                Some(n) => {
                    if n > backend::MAX_FRAME as u64 - sum {
                        return false;
                    }
                    sum = sum + n;
                },
            },
            _ => {},
        }
        i += 1;
    }
    assert(plan.take(plan.len() as int) =~= plan);
    true
}

proof fn light_push(ops: Seq<OpView>, i: int, n: nat)
    requires
        0 <= i < ops.len(),
    ensures
        spread(ops.take(i + 1)) == spread(ops.take(i)) + weight(ops.take(i), ops[i]),
        forall|p: usize| #[trigger] own(ops.take(i + 1), n, p) == own(ops.take(i), n, p) + gift(ops[i], n, p),
        near(ops.take(i + 1)) == (match ops[i] {
            OpView::SwitchTo(_) => Set::empty(),
            OpView::DeclareVar { var, .. } => near(ops.take(i)).remove(var.0),
            OpView::DefVar { var, .. } => near(ops.take(i)).insert(var.0),
            OpView::UseVar(var) => near(ops.take(i)).insert(var.0),
            _ => near(ops.take(i)),
        }),
        handed(ops.take(i + 1)) == (match ops[i] {
            OpView::DeclareVar { var, .. } => handed(ops.take(i)).remove(var.0),
            OpView::UseVar(var) => if near(ops.take(i)).contains(var.0) { handed(ops.take(i)) } else { handed(ops.take(i)).insert(var.0) },
            _ => handed(ops.take(i)),
        }),
{
    assert(ops.take(i + 1).drop_last() =~= ops.take(i));
}

proof fn light_grows(ops: Seq<OpView>, i: int, n: nat)
    requires
        0 <= i <= ops.len(),
    ensures
        spread(ops.take(i)) <= spread(ops),
        forall|p: usize| #[trigger] own(ops.take(i), n, p) <= own(ops, n, p),
    decreases ops.len() - i,
{
    if i < ops.len() {
        light_push(ops, i, n);
        light_grows(ops, i + 1, n);
        assert forall|p: usize| #[trigger] own(ops.take(i), n, p) <= own(ops, n, p) by {
            assert(own(ops.take(i + 1), n, p) <= own(ops, n, p));
        }
    } else {
        assert(ops.take(i) =~= ops);
    }
}

/// What the blocks at the positions have been given so far, as far as they have been given anything.
spec fn are_counted(given: Map<usize, u32>, ops: Seq<OpView>, n: nat) -> bool {
    forall|p: usize| #[trigger] own(ops, n, p) == (if given.contains_key(p) { given[p] as nat } else { 0 })
}

/// No block of a plan comes to more parameters than it can have, where the function has `count`.
fn fits_blocks(ops: &Vec<Op>, count: usize) -> (r: bool)
    ensures
        r == are_light(clif::ops_view(ops@), count as nat),
{
    let ghost plan = clif::ops_view(ops@);
    let ghost n = count as nat;
    if count > backend::MAX_PARAMS as usize {
        return false;
    }
    let mut sum: u32 = 0;
    let mut most: u32 = 0;
    let ghost mut heaviest: usize = 0;
    let mut given: HashMap<usize, u32> = HashMap::new();
    let mut seen: HashSet<u32> = HashSet::new();
    let mut passed: HashSet<u32> = HashSet::new();
    let mut i: usize = 0;
    assert(plan.take(0) =~= Seq::empty());
    assert(seen@ =~= near(plan.take(0)));
    assert(passed@ =~= handed(plan.take(0)));
    while i < ops.len()
        invariant
            i <= ops@.len(),
            n == count,
            count <= backend::MAX_PARAMS,
            plan == clif::ops_view(ops@),
            sum == spread(plan.take(i as int)),
            sum <= backend::MAX_PARAMS,
            most == own(plan.take(i as int), n, heaviest),
            most <= backend::MAX_PARAMS,
            forall|p: usize| #[trigger] own(plan.take(i as int), n, p) <= most,
            are_counted(given@, plan.take(i as int), n),
            seen@ == near(plan.take(i as int)),
            passed@ == handed(plan.take(i as int)),
        decreases ops@.len() - i,
    {
        assert(plan[i as int] == ops@[i as int]@);
        proof {
            light_push(plan, i as int, n);
            light_grows(plan, i + 1, n);
        }
        let gift: Option<(usize, u32)> = match &ops[i] {
            Op::FunctionParams(b) => Some((*b, count as u32)),
            Op::AppendParam { block, .. } => Some((*block, 1)),
            _ => None,
        };
        match gift {
            Some((p, more)) => {
                let had: u32 = match given.get(&p) {
                    Some(had) => *had,
                    None => 0,
                };
                assert(own(plan.take(i as int), n, p) == had);
                assert(own(plan.take(i + 1), n, p) == had + more);
                if more > backend::MAX_PARAMS - had {
                    assert(own(plan, n, p) > backend::MAX_PARAMS);
                    return false;
                }
                given.insert(p, had + more);
                if had + more > most {
                    most = had + more;
                    proof {
                        heaviest = p;
                    }
                }
                assert forall|q: usize| #[trigger] own(plan.take(i + 1), n, q) == (if given@.contains_key(q) { given@[q] as nat } else { 0 }) by {
                    assert(own(plan.take(i as int), n, q) <= most);
                }
                assert forall|q: usize| #[trigger] own(plan.take(i + 1), n, q) <= most by {
                    assert(own(plan.take(i as int), n, q) <= most);
                }
                assert(most == own(plan.take(i + 1), n, heaviest));
            },
            None => {
                assert forall|q: usize| #[trigger] own(plan.take(i + 1), n, q) == own(plan.take(i as int), n, q) by {}
            },
        }
        match &ops[i] {
            Op::SwitchTo(_) => {
                seen = HashSet::new();
            },
            Op::DeclareVar { var, .. } => {
                seen.remove(&var.0);
                passed.remove(&var.0);
            },
            Op::DefVar { var, .. } => {
                seen.insert(var.0);
            },
            Op::UseVar(var) => {
                if !seen.contains(&var.0) {
                    if !passed.contains(&var.0) {
                        if sum == backend::MAX_PARAMS {
                            assert(own(plan, n, heaviest) + spread(plan) > backend::MAX_PARAMS);
                            return false;
                        }
                        sum = sum + 1;
                    }
                    passed.insert(var.0);
                }
                seen.insert(var.0);
            },
            _ => {},
        }
        assert(seen@ =~= near(plan.take(i + 1)));
        assert(passed@ =~= handed(plan.take(i + 1)));
        i += 1;
    }
    assert(plan.take(plan.len() as int) =~= plan);
    assert(most == own(plan, n, heaviest));
    most + sum <= backend::MAX_PARAMS
}

proof fn light_of_push(h: Seq<Request>, r: Request)
    ensures
        backend::spread(h.push(r)) == backend::spread(h) + backend::weight(h, r),
        forall|b: u32| #[trigger] backend::own(h.push(r), b) == backend::own(h, b) + backend::gift(r, b),
        backend::at_hand(h.push(r)) == (match r {
            Request::Switch { .. } => Set::empty(),
            Request::Define { var, .. } => backend::at_hand(h).insert(var),
            Request::Use { var, .. } => backend::at_hand(h).insert(var),
            _ => backend::at_hand(h),
        }),
        backend::handed_on(h.push(r)) == (match r {
            Request::Use { var, .. } => if backend::at_hand(h).contains(var) { backend::handed_on(h) } else { backend::handed_on(h).insert(var) },
            _ => backend::handed_on(h),
        }),
{
    assert(h.push(r).drop_last() =~= h);
}

proof fn blocks_are_bare(h: Seq<Request>, b: u32)
    requires
        backend::only_blocks(h),
    ensures
        backend::own(h, b) == 0,
    decreases h.len(),
{
    if h.len() > 0 {
        let g = h.drop_last();
        assert(h.last() is Block || h.last() is Switch) by {
            assert(h[h.len() - 1] is Block || h[h.len() - 1] is Switch);
        }
        assert forall|k: int| 0 <= k < g.len() implies (#[trigger] g[k]) is Block || g[k] is Switch by {
            assert(h[k] is Block || h[k] is Switch);
        }
        blocks_are_bare(g, b);
    }
}

/// The variables of the plan and those of the builder go together: no two have one number, what is near
/// in the plan is at hand for the builder and nothing else of the plan's is, and what is handed on in
/// the plan is so for the builder.
spec fn are_matched(vars: Map<u32, (u32, MachTy)>, plan: Seq<OpView>, h: Seq<Request>) -> bool {
    &&& forall|u: u32, v: u32| #[trigger] vars.contains_key(u) && #[trigger] vars.contains_key(v) && vars[u].0 == vars[v].0 ==> u == v
    &&& forall|v: u32| #[trigger] vars.contains_key(v) ==> near(plan).contains(v) == backend::at_hand(h).contains(vars[v].0)
    &&& forall|v: u32| #[trigger] handed(plan).contains(v) ==> vars.contains_key(v) && backend::handed_on(h).contains(vars[v].0)
    &&& forall|x: u32| #[trigger] backend::at_hand(h).contains(x) ==> !is_new(h, x)
}

/// One more request of a plan makes no more variables be handed on than the plan says.
proof fn asks_spread(d: Desk, plan: Seq<OpView>, i: int, e: EntView, h: Seq<Request>, s: SettingView)
    requires
        0 <= i < plan.len(),
        ready(d, plan[i], s),
        linked(d, h, s),
        plan[i] is DeclareVar ==> is_new(h, e.id),
        are_matched(d.vars, plan.take(i), h),
        backend::spread(h) <= spread(plan.take(i)),
    ensures
        are_matched(advance(d, plan[i], e, s).vars, plan.take(i + 1), h + asks(d, plan[i], e, s)),
        backend::spread(h + asks(d, plan[i], e, s)) <= spread(plan.take(i + 1)),
{
    reveal(ready);
    reveal(asks);
    reveal(advance);
    let op = plan[i];
    let more = asks(d, op, e, s);
    light_push(plan, i, s.params.len());
    assert forall|v: u32| #[trigger] d.vars.contains_key(v) implies !is_new(h, d.vars[v].0) by {
        assert(backend::is_variable(h, d.vars[v].0, d.vars[v].1));
    }
    if more.len() == 0 {
        assert(h + more =~= h);
    } else if more.len() == 1 {
        assert(h + more =~= h.push(more[0]));
        light_of_push(h, more[0]);
        new_before(h, more[0]);
    } else {
        assert(more.len() == 2);
        assert(h + more =~= h.push(more[0]).push(more[1]));
        light_of_push(h, more[0]);
        light_of_push(h.push(more[0]), more[1]);
        new_before(h, more[0]);
        new_before(h.push(more[0]), more[1]);
    }
}

/// What is new was new before.
proof fn new_before(h: Seq<Request>, r: Request)
    ensures
        forall|x: u32| #[trigger] is_new(h.push(r), x) ==> is_new(h, x),
{
    made_stays(h, r);
    assert forall|x: u32| #[trigger] is_new(h.push(r), x) implies is_new(h, x) by {
        assert forall|ty: MachTy| !backend::is_variable(h, x, ty) by {
            if backend::is_variable(h, x, ty) {
                assert(backend::is_variable(h.push(r), x, ty));
            }
        }
    }
}

/// The block at `p` has been given what the plan says, at least.
spec fn is_laden(d: Desk, h: Seq<Request>, plan: Seq<OpView>, n: nat, b: u32, p: int) -> bool {
    0 <= p < d.kinds.len() && p <= usize::MAX && d.kinds[p] == Kind::Block && d.ents[p].id == b && backend::own(h, b) <= own(plan, n, p as usize)
}

/// What blocks have been given is what the plan says.
spec fn are_laden(d: Desk, h: Seq<Request>, plan: Seq<OpView>, n: nat) -> bool {
    forall|b: u32| #[trigger] backend::own(h, b) > 0 ==> exists|p: int| is_laden(d, h, plan, n, b, p)
}

/// One more request of a plan gives no block more than the plan says.
proof fn asks_gifts(d: Desk, plan: Seq<OpView>, i: int, e: EntView, h: Seq<Request>, s: SettingView)
    requires
        0 <= i < plan.len(),
        ready(d, plan[i], s),
        linked(d, h, s),
        are_laden(d, h, plan.take(i), s.params.len()),
    ensures
        are_laden(advance(d, plan[i], e, s), h + asks(d, plan[i], e, s), plan.take(i + 1), s.params.len()),
{
    reveal(ready);
    reveal(asks);
    reveal(advance);
    let op = plan[i];
    let n = s.params.len();
    let more = asks(d, op, e, s);
    let d1 = advance(d, op, e, s);
    let h1 = h + more;
    let plan1 = plan.take(i + 1);
    light_push(plan, i, n);
    if more.len() == 0 {
        assert(h1 =~= h);
    } else if more.len() == 1 {
        assert(h1 =~= h.push(more[0]));
        light_of_push(h, more[0]);
    } else {
        assert(more.len() == 2);
        assert(h1 =~= h.push(more[0]).push(more[1]));
        light_of_push(h, more[0]);
        light_of_push(h.push(more[0]), more[1]);
    }
    assert forall|b: u32| #[trigger] backend::own(h1, b) > 0 implies exists|p: int| is_laden(d1, h1, plan1, n, b, p) by {
        let at: usize = match op {
            OpView::FunctionParams(block) => block,
            OpView::AppendParam { block, .. } => block,
            _ => 0,
        };
        if (op is FunctionParams || op is AppendParam) && id_at(d, at) == b {
            if op is FunctionParams {
                blocks_are_bare(h, b);
            }
            if backend::own(h, b) > 0 {
                let p = choose|p: int| is_laden(d, h, plan.take(i), n, b, p);
                assert(d.ents[p].id == d.ents[at as int].id);
                assert(p == at);
            }
            assert(own(plan1, n, at) == own(plan.take(i), n, at) + gift(op, n, at));
            assert(is_laden(d1, h1, plan1, n, b, at as int));
        } else {
            assert(backend::own(h1, b) == backend::own(h, b));
            let p = choose|p: int| is_laden(d, h, plan.take(i), n, b, p);
            assert(own(plan1, n, p as usize) >= own(plan.take(i), n, p as usize));
            assert(is_laden(d1, h1, plan1, n, b, p));
        }
    }
}

/// The module knows what the first `i` requests of a plan refer to, the builder has been asked for
/// their stack slots, and no block is heavier than the plan says.
#[verifier::opaque]
spec fn is_bound(d: Desk, h: Seq<Request>, plan: Seq<OpView>, i: int, s: SettingView, funcs: Map<u32, backend::FuncDecl>, data: Map<u32, DataDecl>) -> bool {
    &&& backend::all_resolved(h, funcs, data)
    &&& backend::frame(h) == frame(plan.take(i))
    &&& are_matched(d.vars, plan.take(i), h)
    &&& backend::spread(h) <= spread(plan.take(i))
    &&& are_laden(d, h, plan.take(i), s.params.len())
}

proof fn bound_start(plan: Seq<OpView>, s: SettingView, funcs: Map<u32, backend::FuncDecl>, data: Map<u32, DataDecl>)
    ensures
        is_bound(empty_desk(), Seq::empty(), plan, 0, s, funcs, data),
{
    reveal(is_bound);
    assert(plan.take(0) =~= Seq::empty());
}

/// There is room for the next request of a plan that is bounded.
proof fn bound_room(d: Desk, plan: Seq<OpView>, i: int, h: Seq<Request>, s: SettingView, funcs: Map<u32, backend::FuncDecl>, data: Map<u32, DataDecl>)
    requires
        0 <= i < plan.len(),
        is_bounded(plan, s),
        linked(d, h, s),
        is_bound(d, h, plan, i, s, funcs, data),
    ensures
        has_room(d, h, plan[i], s),
{
    reveal(is_bound);
    let n = s.params.len();
    light_push(plan, i, n);
    light_grows(plan, i, n);
    light_grows(plan, i + 1, n);
    assert forall|b: u32| #[trigger] backend::own(h, b) + spread(plan) <= backend::MAX_PARAMS by {
        assert(own(plan, n, 0) + spread(plan) <= backend::MAX_PARAMS);
        if backend::own(h, b) > 0 {
            let p = choose|p: int| is_laden(d, h, plan.take(i), n, b, p);
            assert(own(plan.take(i), n, p as usize) <= own(plan, n, p as usize));
        }
    }
    match plan[i] {
        OpView::AppendParam { block, .. } => {
            if kind_at(d, block) == Kind::Block {
                let b = id_at(d, block);
                assert(own(plan.take(i + 1), n, block) == own(plan.take(i), n, block) + 1);
                assert(own(plan.take(i + 1), n, block) <= own(plan, n, block));
                if backend::own(h, b) > 0 {
                    let p = choose|p: int| is_laden(d, h, plan.take(i), n, b, p);
                    assert(d.ents[p].id == d.ents[block as int].id);
                    assert(p == block);
                }
            }
        },
        _ => {},
    }
}

proof fn bound_step(d: Desk, plan: Seq<OpView>, i: int, e: EntView, h: Seq<Request>, s: Setting, funcs: Map<u32, backend::FuncDecl>, a: Map<u32, DataDecl>, b: Map<u32, DataDecl>)
    requires
        0 <= i < plan.len(),
        ready(d, plan[i], setting_view(s)),
        linked(d, h, setting_view(s)),
        setting_ok(s, funcs),
        has_data(d, a),
        data_kept(a, b),
        is_bound(d, h, plan, i, setting_view(s), funcs, a),
        plan[i] is DeclareVar ==> is_new(h, e.id),
    ensures
        is_bound(advance(d, plan[i], e, setting_view(s)), h + asks(d, plan[i], e, setting_view(s)), plan, i + 1, setting_view(s), funcs, b),
{
    reveal(is_bound);
    asks_resolved(d, plan[i], e, h, s, funcs, a);
    more_data_resolved(h + asks(d, plan[i], e, setting_view(s)), funcs, a, b);
    asks_frame(d, plan[i], e, h, setting_view(s));
    asks_spread(d, plan, i, e, h, setting_view(s));
    asks_gifts(d, plan, i, e, h, setting_view(s));
    frame_push(plan, i);
}

proof fn bound_end(d: Desk, h: Seq<Request>, plan: Seq<OpView>, s: SettingView, funcs: Map<u32, backend::FuncDecl>, data: Map<u32, DataDecl>)
    requires
        is_bound(d, h, plan, plan.len() as int, s, funcs, data),
    ensures
        backend::all_resolved(h, funcs, data),
        backend::frame(h) == frame(plan),
{
    reveal(is_bound);
    assert(plan.take(plan.len() as int) =~= plan);
}

/// Carries out a plan.
#[verifier::rlimit(40)]
pub(crate) fn carry_out(b: &mut FunctionBuilder<'_>, m: &mut ObjectModule, s: &Setting, ops: &Vec<Op>) -> (r: Result<Ghost<Seq<EntView>>, CodegenError>)
    requires
        backend::requests(*old(b)) == Seq::<Request>::empty(),
        backend::built_params(*old(b)) == s.params@,
        setting_ok(*s, backend::functions(*old(m))),
        backend::origin(*old(m)) is Some,
    ensures
        backend::functions(*final(m)) == backend::functions(*old(m)),
        backend::bodies(*final(m)) == backend::bodies(*old(m)),
        backend::origin(*final(m)) == backend::origin(*old(m)),
        backend::outcome(*final(b)) == backend::outcome(*old(b)),
        match r {
            Ok(ents) => {
                &&& is_sound(clif::ops_view(ops@), setting_view(*s))
                &&& realizes(clif::ops_view(ops@), ents@, backend::requests(*final(b)), backend::data_objects(*final(m)), setting_view(*s))
                &&& backend::is_complete(backend::requests(*final(b)))
                &&& backend::frame(backend::requests(*final(b))) <= backend::MAX_FRAME
                &&& backend::all_resolved(backend::requests(*final(b)), backend::functions(*final(m)), backend::data_objects(*final(m)))
                &&& data_kept(backend::data_objects(*old(m)), backend::data_objects(*final(m)))
            },
            Err(e) => !is_sound(clif::ops_view(ops@), setting_view(*s)) && e@ == ErrorView::Codegen(refusal()),
        },
{
    let ghost sv = setting_view(*s);
    let ghost plan = clif::ops_view(ops@);
    let ghost data0 = backend::data_objects(*m);
    let ghost funcs = backend::functions(*m);
    let ghost bodies = backend::bodies(*m);
    let ghost origin = backend::origin(*m);
    let ghost end = backend::outcome(*b);
    if !fits_frame(ops) || !fits_blocks(ops, s.params.len()) {
        return Err(CodegenError::Codegen("a plan that cannot be carried out".to_owned()));
    }
    let mut desk = DeskState::new();
    proof {
        assert(linked(desk@, backend::requests(*b), sv));
        bound_start(plan, sv, funcs, backend::data_objects(*m));
    }
    let mut i: usize = 0;
    while i < ops.len()
        invariant
            i <= ops@.len(),
            sv == setting_view(*s),
            plan == clif::ops_view(ops@),
            data0 == backend::data_objects(*old(m)),
            funcs == backend::functions(*old(m)),
            bodies == backend::bodies(*old(m)),
            end == backend::outcome(*old(b)),
            backend::functions(*m) == funcs,
            backend::bodies(*m) == bodies,
            backend::outcome(*b) == end,
            backend::built_params(*b) == s.params@,
            setting_ok(*s, funcs),
            linked(desk@, backend::requests(*b), sv),
            has_data(desk@, backend::data_objects(*m)),
            data_kept(data0, backend::data_objects(*m)),
            desk@.ents.len() == i,
            desk@ == run(plan, desk@.ents, i as int, sv),
            backend::requests(*b) == history(plan, desk@.ents, i as int, sv),
            forall|k: int| 0 <= k < i ==> ready(run(plan, desk@.ents, k, sv), #[trigger] plan[k], sv),
            all_fit(plan, desk@.ents, i as int, backend::data_objects(*m), sv),
            is_bound(desk@, backend::requests(*b), plan, i as int, sv, funcs, backend::data_objects(*m)),
            is_bounded(plan, sv),
            backend::origin(*m) == origin,
            origin == backend::origin(*old(m)),
            origin is Some,
        decreases ops@.len() - i,
    {
        let ghost d = desk@;
        let ghost ents = desk@.ents;
        let ghost data1 = backend::data_objects(*m);
        let ghost h = backend::requests(*b);
        assert(plan[i as int] == ops@[i as int]@);
        proof {
            bound_room(d, plan, i as int, h, sv, funcs, data1);
        }
        match desk.carry(b, m, s, &ops[i]) {
            Err(e) => {
                proof {
                    not_sound(plan, ents, i as int, sv);
                }
                return Err(e);
            },
            Ok(_) => {},
        }
        proof {
            let e = desk@.ents.last();
            let data2 = backend::data_objects(*m);
            advance_pushes(d, plan[i as int], e, sv, data1);
            bound_step(d, plan, i as int, e, h, *s, funcs, data1, data2);
            assert(desk@.ents == ents.push(e));
            run_stays(plan, ents, e, i as int, sv);
            assert forall|k: int| 0 <= k < i + 1 implies ready(run(plan, desk@.ents, k, sv), #[trigger] plan[k], sv) by {
                run_stays(plan, ents, e, k, sv);
            }
            assert forall|k: int| 0 <= k < i + 1 implies fits(run(plan, desk@.ents, k, sv), #[trigger] plan[k], desk@.ents[k], data2) by {
                run_stays(plan, ents, e, k, sv);
                if k < i {
                    assert(fits(run(plan, ents, k, sv), plan[k], ents[k], data1));
                    fit_stays(run(plan, ents, k, sv), plan[k], ents[k], data1, data2);
                }
            }
        }
        i += 1;
    }
    let ghost n = ops@.len() as int;
    proof {
        bound_end(desk@, backend::requests(*b), plan, sv, funcs, backend::data_objects(*m));
        shape_stays(plan, desk@.ents, n, sv);
    }
    if !desk.sealed || !desk.all_closed() || !desk.over() {
        return Err(CodegenError::Codegen("a plan that cannot be carried out".to_owned()));
    }
    proof {
        complete(desk@, backend::requests(*b), sv);
    }
    Ok(Ghost(desk@.ents))
}

} // verus!
