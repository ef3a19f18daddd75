//! What each instruction of a function asks of the code generator.
use crate::bridge::{ClifTy, RtFn};
use crate::clif;
use crate::clif::{Arith, Cell, FloatCond, IntCond, OpView, PlanView};
use crate::ir;
use crate::ir::{Block, BlockId, ClosureTemplate, Const, Inst, IrFunction, KnownFn, RegionAllocKind, Repr, Terminator, VarId};
use crate::text;
use vstd::prelude::*;

verus! {

/// Why a function is refused.
pub enum ErrorView {
    Module,
    Codegen(Seq<char>),
    UnsupportedInst(Seq<char>),
}

/// What a translation reads: the representations of the values, the declared functions, the
/// blocks of the plan by the number of the block they stand for, the region parameter, and the names
/// that are pinned to a commit.
pub struct EnvView {
    pub reprs: Map<u32, Repr>,
    pub funcs: Seq<Seq<char>>,
    pub blocks: Map<u32, usize>,
    pub region: Option<usize>,
    pub pins: Seq<Seq<char>>,
}

/// The name of a representation.
pub open spec fn repr_name(r: Repr) -> Seq<char> {
    match r {
        Repr::Boxed => "Boxed"@,
        Repr::Long => "Long"@,
        Repr::Double => "Double"@,
        Repr::Bool => "Bool"@,
    }
}

/// The name of a known function.
pub open spec fn known_name(kf: KnownFn) -> Seq<char> {
    match kf {
        KnownFn::Vector => "Vector"@,
        KnownFn::HashMap => "HashMap"@,
        KnownFn::HashSet => "HashSet"@,
        KnownFn::List => "List"@,
        KnownFn::Assoc => "Assoc"@,
        KnownFn::Dissoc => "Dissoc"@,
        KnownFn::Conj => "Conj"@,
        KnownFn::Disj => "Disj"@,
        KnownFn::Get => "Get"@,
        KnownFn::Nth => "Nth"@,
        KnownFn::Count => "Count"@,
        KnownFn::Contains => "Contains"@,
        KnownFn::Transient => "Transient"@,
        KnownFn::AssocBang => "AssocBang"@,
        KnownFn::ConjBang => "ConjBang"@,
        KnownFn::PersistentBang => "PersistentBang"@,
        KnownFn::First => "First"@,
        KnownFn::Rest => "Rest"@,
        KnownFn::Next => "Next"@,
        KnownFn::Cons => "Cons"@,
        KnownFn::ToSeq => "Seq"@,
        KnownFn::LazySeq => "LazySeq"@,
        KnownFn::Add => "Add"@,
        KnownFn::Sub => "Sub"@,
        KnownFn::Mul => "Mul"@,
        KnownFn::Div => "Div"@,
        KnownFn::Rem => "Rem"@,
        KnownFn::Eq => "Eq"@,
        KnownFn::Lt => "Lt"@,
        KnownFn::Gt => "Gt"@,
        KnownFn::Lte => "Lte"@,
        KnownFn::Gte => "Gte"@,
        KnownFn::IsNil => "IsNil"@,
        KnownFn::IsSeq => "IsSeq"@,
        KnownFn::IsVector => "IsVector"@,
        KnownFn::IsMap => "IsMap"@,
        KnownFn::Identical => "Identical"@,
        KnownFn::Str => "Str"@,
        KnownFn::Deref => "Deref"@,
        KnownFn::Println => "Println"@,
        KnownFn::Pr => "Pr"@,
        KnownFn::AtomDeref => "AtomDeref"@,
        KnownFn::AtomReset => "AtomReset"@,
        KnownFn::AtomSwap => "AtomSwap"@,
        KnownFn::Apply => "Apply"@,
        KnownFn::TryCatchFinally => "TryCatchFinally"@,
        KnownFn::CountFilter => "CountFilter"@,
        KnownFn::IntoFilter => "IntoFilter"@,
        KnownFn::IntoMapcat => "IntoMapcat"@,
        KnownFn::IntoMap => "IntoMap"@,
        KnownFn::SetBangVar => "SetBangVar"@,
        KnownFn::WithBindings => "WithBindings"@,
        KnownFn::Reduce2 => "Reduce2"@,
        KnownFn::Reduce3 => "Reduce3"@,
        KnownFn::MapSeq => "Map"@,
        KnownFn::Filter => "Filter"@,
        KnownFn::Mapv => "Mapv"@,
        KnownFn::Filterv => "Filterv"@,
        KnownFn::SomePred => "Some"@,
        KnownFn::Every => "Every"@,
        KnownFn::Into => "Into"@,
        KnownFn::Into3 => "Into3"@,
        KnownFn::Range1 => "Range1"@,
        KnownFn::Range2 => "Range2"@,
        KnownFn::Range3 => "Range3"@,
        KnownFn::Take => "Take"@,
        KnownFn::Drop => "Drop"@,
        KnownFn::Reverse => "Reverse"@,
        KnownFn::Sort => "Sort"@,
        KnownFn::SortBy => "SortBy"@,
        KnownFn::Concat => "Concat"@,
        KnownFn::Keys => "Keys"@,
        KnownFn::Vals => "Vals"@,
        KnownFn::Merge => "Merge"@,
        KnownFn::Update => "Update"@,
        KnownFn::GetIn => "GetIn"@,
        KnownFn::AssocIn => "AssocIn"@,
        KnownFn::IsNumber => "IsNumber"@,
        KnownFn::IsString => "IsString"@,
        KnownFn::IsKeyword => "IsKeyword"@,
        KnownFn::IsSymbol => "IsSymbol"@,
        KnownFn::IsBool => "IsBool"@,
        KnownFn::IsInt => "IsInt"@,
        KnownFn::Prn => "Prn"@,
        KnownFn::Print => "Print"@,
        KnownFn::Atom => "Atom"@,
        KnownFn::GroupBy => "GroupBy"@,
        KnownFn::Partition2 => "Partition2"@,
        KnownFn::Partition3 => "Partition3"@,
        KnownFn::Partition4 => "Partition4"@,
        KnownFn::Frequencies => "Frequencies"@,
        KnownFn::Keep => "Keep"@,
        KnownFn::Remove => "Remove"@,
        KnownFn::MapIndexed => "MapIndexed"@,
        KnownFn::Zipmap => "Zipmap"@,
        KnownFn::Juxt => "Juxt"@,
        KnownFn::Comp => "Comp"@,
        KnownFn::Partial => "Partial"@,
        KnownFn::Complement => "Complement"@,
        KnownFn::WithOutStr => "WithOutStr"@,
        KnownFn::Peek => "Peek"@,
        KnownFn::Pop => "Pop"@,
        KnownFn::Vec => "Vec"@,
        KnownFn::Mapcat => "Mapcat"@,
        KnownFn::IsEmpty => "IsEmpty"@,
        KnownFn::Repeatedly => "Repeatedly"@,
    }
}

/// How a value is written.
pub open spec fn var_text(v: VarId) -> Seq<char> {
    "v"@ + text::decimal(v.0 as nat)
}

/// The representation of `v`: boxed where nothing else is known.
pub open spec fn repr_of(env: EnvView, v: VarId) -> Repr {
    if env.reprs.dom().contains(v.0) { env.reprs[v.0] } else { Repr::Boxed }
}

/// The machine type behind a representation.
pub open spec fn clif_ty(r: Repr) -> ClifTy {
    match r {
        Repr::Boxed => ClifTy::Ptr,
        Repr::Long => ClifTy::I64,
        Repr::Double => ClifTy::F64,
        Repr::Bool => ClifTy::I8,
    }
}

/// One more request, with the name of what it yields.
pub open spec fn req(s: PlanView, op: OpView) -> (PlanView, usize) {
    (clif::emit(s, op), clif::next(s))
}

/// Declares `v` unless that has been done.
pub open spec fn ensure_var(env: EnvView, s: PlanView, v: VarId) -> PlanView {
    if s.declared.contains(v.0) {
        s
    } else {
        PlanView {
            ops: s.ops.push(OpView::DeclareVar { var: v, ty: clif_ty(repr_of(env, v)) }),
            declared: s.declared.insert(v.0),
        }
    }
}

/// Gives `v` a value.
pub open spec fn define(env: EnvView, s: PlanView, v: VarId, value: usize) -> PlanView {
    clif::emit(ensure_var(env, s, v), OpView::DefVar { var: v, value })
}

/// Reads `v` in its own representation.
pub open spec fn use_var(env: EnvView, s: PlanView, v: VarId) -> (PlanView, usize) {
    req(ensure_var(env, s, v), OpView::UseVar(v))
}

/// Calls a bridge function.
pub open spec fn call_rt(s: PlanView, f: RtFn, args: Seq<usize>) -> (PlanView, usize) {
    let (s1, func) = req(s, OpView::ImportRt(f));
    req(s1, OpView::Call { func, args })
}

/// Calls a bridge function, without a look at its result.
pub open spec fn call_rt_void(s: PlanView, f: RtFn, args: Seq<usize>) -> PlanView {
    let (s1, func) = req(s, OpView::ImportRt(f));
    clif::emit(s1, OpView::CallVoid { func, args })
}

/// Reads `v` as a boxed value, boxing it on the spot where it is not.
pub open spec fn use_boxed(env: EnvView, s: PlanView, v: VarId) -> (PlanView, usize) {
    let (s1, raw) = use_var(env, s, v);
    match repr_of(env, v) {
        Repr::Boxed => (s1, raw),
        Repr::Long => call_rt(s1, RtFn::ConstLong, seq![raw]),
        Repr::Double => call_rt(s1, RtFn::ConstDouble, seq![raw]),
        Repr::Bool => call_rt(s1, RtFn::BoxBool, seq![raw]),
    }
}

/// Reads the values of `vs` from `i` on, boxed, behind the ones in `done`.
pub open spec fn use_all_boxed(env: EnvView, s: PlanView, vs: Seq<VarId>, i: int, done: Seq<usize>) -> (PlanView, Seq<usize>)
    decreases vs.len() - i,
{
    if i < 0 || i >= vs.len() {
        (s, done)
    } else {
        let (s1, x) = use_boxed(env, s, vs[i]);
        use_all_boxed(env, s1, vs, i + 1, done.push(x))
    }
}

/// Reads `v` for a phi of representation `target`: as it is, or boxed.
pub open spec fn coerce(env: EnvView, s: PlanView, v: VarId, target: Repr) -> Result<(PlanView, usize), ErrorView> {
    let src = repr_of(env, v);
    if src == target {
        Ok(use_var(env, s, v))
    } else if target == Repr::Boxed {
        Ok(use_boxed(env, s, v))
    } else {
        Err(ErrorView::Codegen(
            "phi repr mismatch: "@ + var_text(v) + " is "@ + repr_name(src) + ", phi expects "@ + repr_name(target),
        ))
    }
}

/// Reads `v` as a float, converting an integer.
pub open spec fn use_f64(env: EnvView, s: PlanView, v: VarId) -> Result<(PlanView, usize), ErrorView> {
    let (s1, raw) = use_var(env, s, v);
    match repr_of(env, v) {
        Repr::Double => Ok((s1, raw)),
        Repr::Long => Ok(req(s1, OpView::FcvtFromSint(raw))),
        other => Err(ErrorView::Codegen("cannot widen "@ + repr_name(other) + " var "@ + var_text(v) + " to f64"@)),
    }
}

/// The number of bytes of a text.
pub open spec fn byte_len(t: Seq<char>) -> i64 {
    (vstd::utf8::encode_utf8(t).len() as usize) as i64
}

pub open spec fn iconst64(s: PlanView, value: i64) -> (PlanView, usize) {
    req(s, OpView::Iconst { ty: ClifTy::I64, value })
}

pub open spec fn null_ptr(s: PlanView) -> (PlanView, usize) {
    req(s, OpView::Iconst { ty: ClifTy::Ptr, value: 0 })
}

/// A data object with a text: its address and length.
pub open spec fn text_ptr(s: PlanView, t: Seq<char>) -> (PlanView, usize, usize) {
    let (s1, data) = req(s, OpView::TextData(t));
    let (s2, ptr) = req(s1, OpView::DataAddr(data));
    let (s3, len) = iconst64(s2, byte_len(t));
    (s3, ptr, len)
}

/// Calls a bridge function with a text, and yields its result.
pub open spec fn text_const(s: PlanView, f: RtFn, t: Seq<char>) -> (PlanView, usize) {
    let (s1, ptr, len) = text_ptr(s, t);
    call_rt(s1, f, seq![ptr, len])
}

/// The head of an inline cache: loads the cached pointer of this site, and branches to the block
/// `merge` (whose parameter is `param`) with it, or to `miss` where nothing is cached yet.
pub open spec fn cache_head(s: PlanView) -> (PlanView, usize, usize, usize) {
    let (s1, data) = req(s, OpView::ZeroData);
    let (s2, slot) = req(s1, OpView::DataAddr(data));
    let (s3, cached) = req(s2, OpView::LoadPtr(slot));
    let (s4, miss) = req(s3, OpView::CreateBlock);
    let (s5, merge) = req(s4, OpView::CreateBlock);
    let (s6, param) = req(s5, OpView::AppendParam { block: merge, ty: ClifTy::Ptr });
    let s7 = clif::emit(s6, OpView::Brif { cond: cached, then_block: merge, then_args: seq![cached], else_block: miss, else_args: Seq::empty() });
    (clif::emit(s7, OpView::SwitchTo(miss)), slot, merge, param)
}

/// The tail of an inline cache: hands `filled` to `merge`, and goes on there.
pub open spec fn cache_tail(s: PlanView, merge: usize, filled: usize) -> PlanView {
    clif::emit(clif::emit(s, OpView::Jump { block: merge, args: seq![filled] }), OpView::SwitchTo(merge))
}

/// A keyword, through an inline cache.
pub open spec fn keyword_ic(s: PlanView, t: Seq<char>) -> (PlanView, usize) {
    let (s1, slot, merge, param) = cache_head(s);
    let (s2, ptr, len) = text_ptr(s1, t);
    let (s3, filled) = call_rt(s2, RtFn::KwIcFill, seq![ptr, len, slot]);
    (cache_tail(s3, merge, filled), param)
}

/// A literal, boxed.
pub open spec fn boxed_const(s: PlanView, c: Const) -> (PlanView, usize) {
    match c {
        Const::Nil => call_rt(s, RtFn::ConstNil, Seq::empty()),
        Const::Bool(b) => call_rt(s, if b { RtFn::ConstTrue } else { RtFn::ConstFalse }, Seq::empty()),
        Const::Long(n) => {
            let (s1, func) = req(s, OpView::ImportRt(RtFn::ConstLong));
            let (s2, arg) = iconst64(s1, n);
            req(s2, OpView::Call { func, args: seq![arg] })
        },
        Const::Double(bits) => {
            let (s1, func) = req(s, OpView::ImportRt(RtFn::ConstDouble));
            let (s2, arg) = req(s1, OpView::F64const(bits));
            req(s2, OpView::Call { func, args: seq![arg] })
        },
        Const::Char(c) => {
            let (s1, func) = req(s, OpView::ImportRt(RtFn::ConstChar));
            let (s2, arg) = req(s1, OpView::Iconst { ty: ClifTy::I32, value: (c as u32) as i64 });
            req(s2, OpView::Call { func, args: seq![arg] })
        },
        Const::Str(t) => text_const(s, RtFn::ConstString, t@),
        Const::Keyword(t) => keyword_ic(s, t@),
        Const::Symbol(t) => text_const(s, RtFn::ConstSymbol, t@),
    }
}

/// A literal, unboxed where its value is.
pub open spec fn constant(env: EnvView, s: PlanView, dst: VarId, c: Const) -> (PlanView, usize) {
    match (repr_of(env, dst), c) {
        (Repr::Long, Const::Long(n)) => iconst64(s, n),
        (Repr::Double, Const::Double(bits)) => req(s, OpView::F64const(bits)),
        (Repr::Bool, Const::Bool(b)) => req(s, OpView::Iconst { ty: ClifTy::I8, value: if b { 1 } else { 0 } }),
        _ => boxed_const(s, c),
    }
}

/// Two data objects with a namespace and a name: both addresses and lengths.
pub open spec fn qualified_ptr(s: PlanView, ns: Seq<char>, name: Seq<char>) -> (PlanView, Seq<usize>) {
    let (s1, ns_data) = req(s, OpView::TextData(ns));
    let (s2, name_data) = req(s1, OpView::TextData(name));
    let (s3, ns_ptr) = req(s2, OpView::DataAddr(ns_data));
    let (s4, ns_len) = iconst64(s3, byte_len(ns));
    let (s5, name_ptr) = req(s4, OpView::DataAddr(name_data));
    let (s6, name_len) = iconst64(s5, byte_len(name));
    (s6, seq![ns_ptr, ns_len, name_ptr, name_len])
}

/// A pinned global, through an inline cache.
pub open spec fn versioned_ic(s: PlanView, ns: Seq<char>, name: Seq<char>) -> (PlanView, usize) {
    let (s1, slot, merge, param) = cache_head(s);
    let (s2, ns_ptr, ns_len) = text_ptr(s1, ns);
    let (s3, name_ptr, name_len) = text_ptr(s2, name);
    let (s4, filled) = call_rt(s3, RtFn::LoadGlobalVersionedIc, seq![ns_ptr, ns_len, name_ptr, name_len, slot]);
    (cache_tail(s4, merge, filled), param)
}

/// The value of a global.
pub open spec fn load_global(env: EnvView, s: PlanView, ns: Seq<char>, name: Seq<char>) -> (PlanView, usize) {
    if env.pins.contains(name) {
        versioned_ic(s, ns, name)
    } else {
        let (s1, args) = qualified_ptr(s, ns, name);
        call_rt(s1, RtFn::LoadGlobal, args)
    }
}

/// A global itself, not its value.
pub open spec fn load_var(s: PlanView, ns: Seq<char>, name: Seq<char>) -> (PlanView, usize) {
    let (s1, args) = qualified_ptr(s, ns, name);
    call_rt(s1, RtFn::LoadVar, args)
}

/// Gives a global a value.
pub open spec fn def_var(env: EnvView, s: PlanView, ns: Seq<char>, name: Seq<char>, val: VarId) -> (PlanView, usize) {
    let (s1, args) = qualified_ptr(s, ns, name);
    let (s2, x) = use_boxed(env, s1, val);
    call_rt(s2, RtFn::DefVar, args.push(x))
}

/// Stores the values of `vs` from `i` on, boxed, into `slot`.
pub open spec fn store_all(env: EnvView, s: PlanView, vs: Seq<VarId>, slot: usize, i: int) -> PlanView
    decreases vs.len() - i,
{
    if i < 0 || i >= vs.len() {
        s
    } else {
        let (s1, value) = use_boxed(env, s, vs[i]);
        store_all(env, clif::emit(s1, OpView::StackStore { value, slot, cell: Cell::Word, index: i as usize }), vs, slot, i + 1)
    }
}

/// Spills the values of `vs`, boxed, to the stack, and yields the address.
pub open spec fn spill(env: EnvView, s: PlanView, vs: Seq<VarId>) -> (PlanView, usize) {
    let (s1, slot) = req(s, OpView::StackSlot { cell: Cell::Word, count: vs.len() as usize });
    req(store_all(env, s1, vs, slot, 0), OpView::StackAddr(slot))
}

/// Spills `vs` with their number `count`; a null pointer and zero where there are none.
pub open spec fn spill_counted(env: EnvView, s: PlanView, vs: Seq<VarId>, count: i64) -> (PlanView, usize, usize) {
    if vs.len() == 0 {
        let (s1, null) = null_ptr(s);
        let (s2, zero) = iconst64(s1, 0);
        (s2, null, zero)
    } else {
        let (s1, addr) = spill(env, s, vs);
        let (s2, n) = iconst64(s1, count);
        (s2, addr, n)
    }
}

/// Builds a collection from `elems`: a map counts pairs.
pub open spec fn alloc_collection(env: EnvView, s: PlanView, f: RtFn, elems: Seq<VarId>) -> (PlanView, usize) {
    let n = elems.len() as usize;
    if elems.len() == 0 {
        let (s1, func) = req(s, OpView::ImportRt(f));
        let (s2, null) = null_ptr(s1);
        let (s3, zero) = iconst64(s2, 0);
        req(s3, OpView::Call { func, args: seq![null, zero] })
    } else {
        let (s1, addr) = spill(env, s, elems);
        let (s2, count) = iconst64(s1, n as i64);
        let (s3, func) = req(s2, OpView::ImportRt(f));
        if f == RtFn::AllocMap {
            let (s4, pairs) = iconst64(s3, (n / 2) as i64);
            req(s4, OpView::Call { func, args: seq![addr, pairs] })
        } else {
            req(s3, OpView::Call { func, args: seq![addr, count] })
        }
    }
}

/// Builds a collection from `elems` in a region.
pub open spec fn region_alloc_collection(env: EnvView, s: PlanView, f: RtFn, region: usize, elems: Seq<VarId>) -> (PlanView, usize) {
    let n = elems.len() as usize;
    if elems.len() == 0 {
        let (s1, func) = req(s, OpView::ImportRt(f));
        let (s2, null) = null_ptr(s1);
        let (s3, zero) = iconst64(s2, 0);
        req(s3, OpView::Call { func, args: seq![region, null, zero] })
    } else {
        let (s1, addr) = spill(env, s, elems);
        let (s2, func) = req(s1, OpView::ImportRt(f));
        let (s3, count) = iconst64(s2, if f == RtFn::RegionAllocMap { (n / 2) as i64 } else { n as i64 });
        req(s3, OpView::Call { func, args: seq![region, addr, count] })
    }
}

/// The bridge function that allocates a collection of the given kind in a region.
pub open spec fn region_bridge(kind: RegionAllocKind) -> RtFn {
    match kind {
        RegionAllocKind::Vector => RtFn::RegionAllocVector,
        RegionAllocKind::HashMap => RtFn::RegionAllocMap,
        RegionAllocKind::HashSet => RtFn::RegionAllocSet,
        RegionAllocKind::List => RtFn::RegionAllocList,
        RegionAllocKind::Cons => RtFn::RegionAllocCons,
    }
}

/// An allocation in a region.  A pair needs its two parts; without them the result is nil.
pub open spec fn region_alloc(env: EnvView, s: PlanView, region: VarId, kind: RegionAllocKind, operands: Seq<VarId>) -> (PlanView, usize) {
    let (s1, handle) = use_var(env, s, region);
    if kind == RegionAllocKind::Cons {
        if operands.len() == 2 {
            let (s2, h) = use_boxed(env, s1, operands[0]);
            let (s3, t) = use_boxed(env, s2, operands[1]);
            call_rt(s3, RtFn::RegionAllocCons, seq![handle, h, t])
        } else {
            call_rt(s1, RtFn::ConstNil, Seq::empty())
        }
    } else {
        region_alloc_collection(env, s1, region_bridge(kind), handle, operands)
    }
}

pub open spec fn is_arith(kf: KnownFn) -> bool {
    kf == KnownFn::Add || kf == KnownFn::Sub || kf == KnownFn::Mul
}

pub open spec fn is_comparison(kf: KnownFn) -> bool {
    kf == KnownFn::Lt || kf == KnownFn::Gt || kf == KnownFn::Lte || kf == KnownFn::Gte
}

pub open spec fn int_arith(kf: KnownFn) -> Arith {
    match kf {
        KnownFn::Add => Arith::Iadd,
        KnownFn::Sub => Arith::Isub,
        _ => Arith::Imul,
    }
}

pub open spec fn float_arith(kf: KnownFn) -> Arith {
    match kf {
        KnownFn::Add => Arith::Fadd,
        KnownFn::Sub => Arith::Fsub,
        KnownFn::Mul => Arith::Fmul,
        _ => Arith::Fdiv,
    }
}

pub open spec fn int_cond(kf: KnownFn) -> IntCond {
    match kf {
        KnownFn::Lt => IntCond::SignedLessThan,
        KnownFn::Gt => IntCond::SignedGreaterThan,
        KnownFn::Lte => IntCond::SignedLessThanOrEqual,
        _ => IntCond::SignedGreaterThanOrEqual,
    }
}

pub open spec fn float_cond(kf: KnownFn) -> FloatCond {
    match kf {
        KnownFn::Lt => FloatCond::LessThan,
        KnownFn::Gt => FloatCond::GreaterThan,
        KnownFn::Lte => FloatCond::LessThanOrEqual,
        _ => FloatCond::GreaterThanOrEqual,
    }
}

/// An operation on two floats, where both operands can be read as floats.
pub open spec fn float_op(env: EnvView, s: PlanView, a: VarId, b: VarId, op: spec_fn(usize, usize) -> OpView) -> Result<(PlanView, usize), ErrorView> {
    match use_f64(env, s, a) {
        Err(e) => Err(e),
        Ok((s1, x)) => match use_f64(env, s1, b) {
            Err(e) => Err(e),
            Ok((s2, y)) => Ok(req(s2, op(x, y))),
        },
    }
}

/// One where `r`, which is left in a word of the sum, difference or product of `x` and `y`, is all
/// of it, and zero otherwise.  A sum is less than `x` exactly where `y` is negative, and a difference
/// exactly where `y` is positive; the upper half of a product repeats the sign of the lower one.
pub open spec fn fit_test(s: PlanView, kf: KnownFn, x: usize, y: usize, r: usize) -> (PlanView, usize) {
    if kf == KnownFn::Mul {
        let (s1, high) = req(s, OpView::Binary { op: Arith::Smulhi, a: x, b: y });
        let (s2, one) = iconst64(s1, 1);
        let (s3, sign) = req(s2, OpView::Binary { op: Arith::Smulhi, a: r, b: one });
        req(s3, OpView::IntTest { cond: IntCond::Equal, a: high, b: sign })
    } else {
        let (s1, less) = req(s, OpView::IntTest { cond: IntCond::SignedLessThan, a: r, b: x });
        let (s2, down) = req(s1, OpView::IntTestImm { cond: if kf == KnownFn::Add { IntCond::SignedLessThan } else { IntCond::SignedGreaterThan }, a: y, imm: 0 });
        req(s2, OpView::IntTest { cond: IntCond::Equal, a: less, b: down })
    }
}

/// Goes on where `fits` is not zero; otherwise an overflow is thrown, and the function is left with
/// nil.
pub open spec fn overflow_branch(s: PlanView, fits: usize) -> PlanView {
    let (s1, over) = req(s, OpView::CreateBlock);
    let (s2, cont) = req(s1, OpView::CreateBlock);
    let s3 = clif::emit(s2, OpView::Brif { cond: fits, then_block: cont, then_args: Seq::empty(), else_block: over, else_args: Seq::empty() });
    let s4 = clif::emit(s3, OpView::SwitchTo(over));
    let (s5, error) = call_rt(s4, RtFn::OverflowError, Seq::empty());
    let (s6, nil) = call_rt(s5, RtFn::Throw, seq![error]);
    clif::emit(clif::emit(s6, OpView::Return(nil)), OpView::SwitchTo(cont))
}

/// The sum, difference or product of two raw integers, where it fits in a word.
pub open spec fn checked_arith(s: PlanView, kf: KnownFn, x: usize, y: usize) -> (PlanView, usize) {
    let (s1, r) = req(s, OpView::Binary { op: int_arith(kf), a: x, b: y });
    let (s2, fits) = fit_test(s1, kf, x, y, r);
    (overflow_branch(s2, fits), r)
}

/// An arithmetic operation or comparison on raw values.
pub open spec fn unboxed_known(env: EnvView, s: PlanView, dst_repr: Repr, kf: KnownFn, a: VarId, b: VarId) -> Result<(PlanView, usize), ErrorView> {
    let (s1, x) = use_var(env, s, a);
    let (s2, y) = use_var(env, s1, b);
    if is_arith(kf) && dst_repr == Repr::Long {
        Ok(checked_arith(s2, kf, x, y))
    } else if (is_arith(kf) || kf == KnownFn::Div) && dst_repr == Repr::Double {
        float_op(env, s, a, b, |x: usize, y: usize| OpView::Binary { op: float_arith(kf), a: x, b: y })
    } else if is_comparison(kf) && dst_repr == Repr::Bool {
        if repr_of(env, a) == Repr::Long && repr_of(env, b) == Repr::Long {
            Ok(req(s2, OpView::IntTest { cond: int_cond(kf), a: x, b: y }))
        } else {
            float_op(env, s, a, b, |x: usize, y: usize| OpView::FloatTest { cond: float_cond(kf), a: x, b: y })
        }
    } else if kf == KnownFn::Eq && dst_repr == Repr::Bool {
        Ok(req(s2, OpView::IntTest { cond: IntCond::Equal, a: x, b: y }))
    } else {
        Err(ErrorView::Codegen(
            "unboxed known-call combination not supported: ("@ + known_name(kf) + ", "@ + repr_name(dst_repr) + ")"@,
        ))
    }
}

/// The bridge function that takes all its arguments as one spilled array.
pub open spec fn variadic_bridge(kf: KnownFn, argc: nat) -> Option<RtFn> {
    match kf {
        KnownFn::Vector => Some(RtFn::AllocVector),
        KnownFn::HashMap => Some(RtFn::AllocMap),
        KnownFn::HashSet => Some(RtFn::AllocSet),
        KnownFn::List => Some(RtFn::AllocList),
        KnownFn::Concat => Some(RtFn::Concat),
        KnownFn::Str => if argc != 1 { Some(RtFn::StrN) } else { None },
        KnownFn::Println => if argc != 1 { Some(RtFn::PrintlnN) } else { None },
        KnownFn::Merge => Some(RtFn::Merge),
        KnownFn::Juxt => Some(RtFn::Juxt),
        KnownFn::Comp => Some(RtFn::Comp),
        KnownFn::Partial => Some(RtFn::Partial),
        _ => None,
    }
}

/// The bridge function that takes the arguments one by one.
pub open spec fn fixed_bridge(kf: KnownFn) -> Option<RtFn> {
    match kf {
        KnownFn::Add => Some(RtFn::Add),
        KnownFn::Sub => Some(RtFn::Sub),
        KnownFn::Mul => Some(RtFn::Mul),
        KnownFn::Div => Some(RtFn::Div),
        KnownFn::Rem => Some(RtFn::Rem),
        KnownFn::Eq => Some(RtFn::Eq),
        KnownFn::Lt => Some(RtFn::Lt),
        KnownFn::Gt => Some(RtFn::Gt),
        KnownFn::Lte => Some(RtFn::Lte),
        KnownFn::Gte => Some(RtFn::Gte),
        KnownFn::Get => Some(RtFn::Get),
        KnownFn::Count => Some(RtFn::Count),
        KnownFn::CountFilter => Some(RtFn::CountFilter),
        KnownFn::IntoFilter => Some(RtFn::IntoFilter),
        KnownFn::IntoMapcat => Some(RtFn::IntoMapcat),
        KnownFn::IntoMap => Some(RtFn::IntoMap),
        KnownFn::First => Some(RtFn::First),
        KnownFn::Rest | KnownFn::Next => Some(RtFn::Rest),
        KnownFn::Assoc => Some(RtFn::Assoc),
        KnownFn::Conj => Some(RtFn::Conj),
        KnownFn::Deref | KnownFn::AtomDeref => Some(RtFn::Deref),
        KnownFn::Println => Some(RtFn::Println),
        KnownFn::Pr => Some(RtFn::Pr),
        KnownFn::IsNil => Some(RtFn::IsNil),
        KnownFn::IsVector => Some(RtFn::IsVector),
        KnownFn::IsMap => Some(RtFn::IsMap),
        KnownFn::IsSeq => Some(RtFn::IsSeq),
        KnownFn::Identical => Some(RtFn::Identical),
        KnownFn::Str => Some(RtFn::Str),
        KnownFn::TryCatchFinally => Some(RtFn::Try),
        KnownFn::Dissoc => Some(RtFn::Dissoc),
        KnownFn::Disj => Some(RtFn::Disj),
        KnownFn::Nth => Some(RtFn::Nth),
        KnownFn::Contains => Some(RtFn::Contains),
        KnownFn::Cons => Some(RtFn::AllocCons),
        KnownFn::ToSeq => Some(RtFn::ToSeq),
        KnownFn::LazySeq => Some(RtFn::LazySeq),
        KnownFn::Transient => Some(RtFn::Transient),
        KnownFn::AssocBang => Some(RtFn::AssocBang),
        KnownFn::ConjBang => Some(RtFn::ConjBang),
        KnownFn::PersistentBang => Some(RtFn::PersistentBang),
        KnownFn::AtomReset => Some(RtFn::AtomReset),
        KnownFn::Apply => Some(RtFn::Apply),
        KnownFn::SetBangVar => Some(RtFn::SetBang),
        KnownFn::Reduce2 => Some(RtFn::Reduce2),
        KnownFn::Reduce3 => Some(RtFn::Reduce3),
        KnownFn::MapSeq => Some(RtFn::MapSeq),
        KnownFn::Filter => Some(RtFn::Filter),
        KnownFn::Mapv => Some(RtFn::Mapv),
        KnownFn::Filterv => Some(RtFn::Filterv),
        KnownFn::SomePred => Some(RtFn::SomePred),
        KnownFn::Every => Some(RtFn::Every),
        KnownFn::Into => Some(RtFn::Into),
        KnownFn::Into3 => Some(RtFn::Into3),
        KnownFn::Range1 => Some(RtFn::Range1),
        KnownFn::Range2 => Some(RtFn::Range2),
        KnownFn::Range3 => Some(RtFn::Range3),
        KnownFn::Take => Some(RtFn::Take),
        KnownFn::Drop => Some(RtFn::Drop),
        KnownFn::Reverse => Some(RtFn::Reverse),
        KnownFn::Sort => Some(RtFn::Sort),
        KnownFn::SortBy => Some(RtFn::SortBy),
        KnownFn::Keys => Some(RtFn::Keys),
        KnownFn::Vals => Some(RtFn::Vals),
        KnownFn::Update => Some(RtFn::Update),
        KnownFn::GetIn => Some(RtFn::GetIn),
        KnownFn::AssocIn => Some(RtFn::AssocIn),
        KnownFn::IsNumber => Some(RtFn::IsNumber),
        KnownFn::IsString => Some(RtFn::IsString),
        KnownFn::IsKeyword => Some(RtFn::IsKeyword),
        KnownFn::IsSymbol => Some(RtFn::IsSymbol),
        KnownFn::IsBool => Some(RtFn::IsBool),
        KnownFn::IsInt => Some(RtFn::IsInt),
        KnownFn::Prn => Some(RtFn::Prn),
        KnownFn::Print => Some(RtFn::Print),
        KnownFn::Atom => Some(RtFn::Atom),
        KnownFn::GroupBy => Some(RtFn::GroupBy),
        KnownFn::Partition2 => Some(RtFn::Partition2),
        KnownFn::Partition3 => Some(RtFn::Partition3),
        KnownFn::Partition4 => Some(RtFn::Partition4),
        KnownFn::Frequencies => Some(RtFn::Frequencies),
        KnownFn::Keep => Some(RtFn::Keep),
        KnownFn::Remove => Some(RtFn::Remove),
        KnownFn::MapIndexed => Some(RtFn::MapIndexed),
        KnownFn::Zipmap => Some(RtFn::Zipmap),
        KnownFn::Complement => Some(RtFn::Complement),
        KnownFn::WithOutStr => Some(RtFn::WithOutStr),
        KnownFn::Peek => Some(RtFn::Peek),
        KnownFn::Pop => Some(RtFn::Pop),
        KnownFn::Vec => Some(RtFn::Vec),
        KnownFn::Mapcat => Some(RtFn::Mapcat),
        KnownFn::IsEmpty => Some(RtFn::IsEmpty),
        KnownFn::Repeatedly => Some(RtFn::Repeatedly),
        _ => None,
    }
}

/// `swap!` on the atom `args[0]` with the function `args[1]`; the rest is handed on.
pub open spec fn atom_swap(env: EnvView, s: PlanView, args: Seq<VarId>) -> (PlanView, usize) {
    let (s1, atom) = use_boxed(env, s, args[0]);
    let (s2, f) = use_boxed(env, s1, args[1]);
    let extra = args.subrange(2, args.len() as int);
    let (s3, ptr, count) = spill_counted(env, s2, extra, (extra.len() as usize) as i64);
    call_rt(s3, RtFn::AtomSwap, seq![atom, f, ptr, count])
}

/// `binding`: pairs of a variable and its value, then the body.
pub open spec fn with_bindings(env: EnvView, s: PlanView, args: Seq<VarId>) -> (PlanView, usize) {
    let bindings = args.drop_last();
    let npairs = (bindings.len() / 2) as usize;
    let (s1, body) = use_boxed(env, s, args.last());
    let (s2, ptr, count) = spill_counted(
        env,
        s1,
        if npairs > 0 { bindings } else { Seq::empty() },
        npairs as i64,
    );
    call_rt(s2, RtFn::WithBindings, seq![ptr, count, body])
}

/// A call of a known function has the arguments that it cannot do without.
pub open spec fn known_ok(kf: KnownFn, argc: nat) -> bool {
    (kf == KnownFn::AtomSwap ==> argc >= 2) && (kf == KnownFn::WithBindings ==> argc >= 1)
}

/// A single arity has its parameter count and its variadic flag.
pub open spec fn template_ok(t: ClosureTemplate) -> bool {
    t.arity_fn_names@.len() == 1 ==> t.param_counts@.len() >= 1 && t.is_variadic@.len() >= 1
}

/// A call of a known function.
pub open spec fn known_call(env: EnvView, s: PlanView, dst: VarId, kf: KnownFn, args: Seq<VarId>) -> Result<(PlanView, usize), ErrorView> {
    if repr_of(env, dst) != Repr::Boxed && args.len() == 2 {
        unboxed_known(env, s, repr_of(env, dst), kf, args[0], args[1])
    } else if kf == KnownFn::AtomSwap {
        Ok(atom_swap(env, s, args))
    } else if kf == KnownFn::WithBindings {
        Ok(with_bindings(env, s, args))
    } else {
        match variadic_bridge(kf, args.len()) {
            Some(f) => Ok(alloc_collection(env, s, f, args)),
            None => match fixed_bridge(kf) {
                Some(f) => {
                    let (s1, xs) = use_all_boxed(env, s, args, 0, Seq::empty());
                    Ok(call_rt(s1, f, xs))
                },
                None => Ok(call_rt(s, RtFn::ConstNil, Seq::empty())),
            },
        }
    }
}

/// A call of a declared function, with `extra` behind its arguments.
pub open spec fn direct_call(env: EnvView, s: PlanView, what: Seq<char>, name: Seq<char>, args: Seq<VarId>, extra: Seq<usize>) -> Result<(PlanView, usize), ErrorView> {
    if env.funcs.contains(name) {
        let (s1, func) = req(s, OpView::ImportUser(name));
        let (s2, xs) = use_all_boxed(env, s1, args, 0, Seq::empty());
        Ok(req(s2, OpView::Call { func, args: xs + extra }))
    } else {
        Err(ErrorView::Codegen(what + ": unknown function "@ + name))
    }
}

/// A call of a value, through the inline cache of this site where it has arguments.
pub open spec fn unknown_call(env: EnvView, s: PlanView, callee: VarId, args: Seq<VarId>) -> (PlanView, usize) {
    let (s1, f) = use_boxed(env, s, callee);
    if args.len() == 0 {
        let (s2, null) = null_ptr(s1);
        let (s3, zero) = iconst64(s2, 0);
        call_rt(s3, RtFn::Call, seq![f, null, zero])
    } else {
        let (s2, addr) = spill(env, s1, args);
        let (s3, count) = iconst64(s2, (args.len() as usize) as i64);
        let (s4, data) = req(s3, OpView::ZeroData);
        let (s5, slot) = req(s4, OpView::DataAddr(data));
        call_rt(s5, RtFn::CallIc, seq![f, addr, count, slot])
    }
}

/// The address of a declared function.
pub open spec fn func_ptr(env: EnvView, s: PlanView, name: Seq<char>) -> Result<(PlanView, usize), ErrorView> {
    if env.funcs.contains(name) {
        let (s1, func) = req(s, OpView::ImportUser(name));
        Ok(req(s1, OpView::FuncAddr(func)))
    } else {
        Err(ErrorView::Codegen("AllocClosure: undeclared subfunction "@ + name))
    }
}

/// Stores the addresses of the functions `names` from `i` on.
pub open spec fn store_funcs(env: EnvView, s: PlanView, names: Seq<String>, slot: usize, i: int) -> Result<PlanView, ErrorView>
    decreases names.len() - i,
{
    if i < 0 || i >= names.len() {
        Ok(s)
    } else {
        match func_ptr(env, s, names[i]@) {
            Err(e) => Err(e),
            Ok((s1, value)) => store_funcs(
                env,
                clif::emit(s1, OpView::StackStore { value, slot, cell: Cell::Word, index: i as usize }),
                names,
                slot,
                i + 1,
            ),
        }
    }
}

/// Stores the parameter counts from `i` on.
pub open spec fn store_counts(s: PlanView, counts: Seq<usize>, slot: usize, i: int) -> PlanView
    decreases counts.len() - i,
{
    if i < 0 || i >= counts.len() {
        s
    } else {
        let (s1, value) = iconst64(s, counts[i] as i64);
        store_counts(clif::emit(s1, OpView::StackStore { value, slot, cell: Cell::Word, index: i as usize }), counts, slot, i + 1)
    }
}

/// Stores the variadic flags from `i` on, one byte each.
pub open spec fn store_flags(s: PlanView, flags: Seq<bool>, slot: usize, i: int) -> PlanView
    decreases flags.len() - i,
{
    if i < 0 || i >= flags.len() {
        s
    } else {
        let (s1, value) = req(s, OpView::Iconst { ty: ClifTy::I8, value: if flags[i] { 1 } else { 0 } });
        store_flags(clif::emit(s1, OpView::StackStore { value, slot, cell: Cell::Byte, index: i as usize }), flags, slot, i + 1)
    }
}

/// The name that a closure is known by at run time.
pub open spec fn closure_name(t: ClosureTemplate) -> Seq<char> {
    match t.name {
        Some(n) => n@,
        None => t.arity_fn_names@[0]@,
    }
}

/// A closure over `captures`: nil where no arity has been compiled.
pub open spec fn closure(env: EnvView, s: PlanView, t: ClosureTemplate, captures: Seq<VarId>) -> Result<(PlanView, usize), ErrorView> {
    let names = t.arity_fn_names@;
    let n = names.len() as usize;
    if names.len() == 0 {
        Ok(call_rt(s, RtFn::ConstNil, Seq::empty()))
    } else {
        let (s1, name, name_len) = text_ptr(s, closure_name(t));
        let (s2, caps, ncaps) = spill_counted(env, s1, captures, (captures.len() as usize) as i64);
        if names.len() == 1 {
            match func_ptr(env, s2, names[0]@) {
                Err(e) => Err(e),
                Ok((s3, func)) => {
                    let (s4, count) = iconst64(s3, t.param_counts@[0] as i64);
                    Ok(call_rt(
                        s4,
                        if t.is_variadic@[0] { RtFn::MakeFnVariadic } else { RtFn::MakeFn },
                        seq![name, name_len, func, count, caps, ncaps],
                    ))
                },
            }
        } else {
            let (s3, func_slot) = req(s2, OpView::StackSlot { cell: Cell::Word, count: n });
            match store_funcs(env, s3, names, func_slot, 0) {
                Err(e) => Err(e),
                Ok(s4) => {
                    let (s5, funcs) = req(s4, OpView::StackAddr(func_slot));
                    let (s6, count_slot) = req(s5, OpView::StackSlot { cell: Cell::Word, count: n });
                    let s7 = store_counts(s6, t.param_counts@, count_slot, 0);
                    let (s8, counts) = req(s7, OpView::StackAddr(count_slot));
                    let (s9, flag_slot) = req(s8, OpView::StackSlot { cell: Cell::Byte, count: n });
                    let s10 = store_flags(s9, t.is_variadic@, flag_slot, 0);
                    let (s11, flags) = req(s10, OpView::StackAddr(flag_slot));
                    let (s12, arities) = iconst64(s11, n as i64);
                    Ok(call_rt(
                        s12,
                        RtFn::MakeFnMulti,
                        seq![name, name_len, funcs, counts, flags, arities, caps, ncaps],
                    ))
                },
            }
        }
    }
}

/// Keys and values of `pairs`, in turn.
pub open spec fn flat(pairs: Seq<(VarId, VarId)>) -> Seq<VarId> {
    Seq::new(2 * pairs.len(), |i: int| if i % 2 == 0 { pairs[i / 2].0 } else { pairs[i / 2].1 })
}

/// The value that an instruction computes, where it defines one.
pub open spec fn inst_value(env: EnvView, s: PlanView, inst: Inst) -> Result<(PlanView, usize), ErrorView> {
    match inst {
        Inst::Const(dst, c) => Ok(constant(env, s, dst, c)),
        Inst::LoadLocal(_, _) => Ok(call_rt(s, RtFn::ConstNil, Seq::empty())),
        Inst::LoadGlobal(_, ns, name) => Ok(load_global(env, s, ns@, name@)),
        Inst::LoadVar(_, ns, name) => Ok(load_var(s, ns@, name@)),
        Inst::AllocVector(_, elems) => Ok(alloc_collection(env, s, RtFn::AllocVector, elems@)),
        Inst::AllocMap(_, pairs) => Ok(alloc_collection(env, s, RtFn::AllocMap, flat(pairs@))),
        Inst::AllocSet(_, elems) => Ok(alloc_collection(env, s, RtFn::AllocSet, elems@)),
        Inst::AllocList(_, elems) => Ok(alloc_collection(env, s, RtFn::AllocList, elems@)),
        Inst::AllocCons(_, head, tail) => {
            let (s1, h) = use_boxed(env, s, head);
            let (s2, t) = use_boxed(env, s1, tail);
            Ok(call_rt(s2, RtFn::AllocCons, seq![h, t]))
        },
        Inst::AllocClosure(_, t, captures) => closure(env, s, t, captures@),
        Inst::CallKnown(dst, kf, args) => known_call(env, s, dst, kf, args@),
        Inst::Call(_, callee, args) => Ok(unknown_call(env, s, callee, args@)),
        Inst::CallDirect(_, name, args) => direct_call(env, s, "CallDirect"@, name@, args@, Seq::empty()),
        Inst::Deref(_, src) => {
            let (s1, x) = use_boxed(env, s, src);
            Ok(call_rt(s1, RtFn::Deref, seq![x]))
        },
        Inst::DefVar(_, ns, name, val) => Ok(def_var(env, s, ns@, name@, val)),
        Inst::RegionStart(_) => Ok(call_rt(s, RtFn::RegionStart, Seq::empty())),
        Inst::RegionAlloc(_, region, kind, operands) => Ok(region_alloc(env, s, region, kind, operands@)),
        Inst::RegionParam(_) => match env.region {
            Some(p) => Ok((s, p)),
            None => Err(ErrorView::Codegen("RegionParam in a function compiled without a region parameter"@)),
        },
        Inst::CallWithRegion(_, name, args, region) => {
            let (s1, handle) = use_var(env, s, region);
            direct_call(env, s1, "CallWithRegion"@, name@, args@, seq![handle])
        },
        _ => Err(ErrorView::UnsupportedInst(
            "async instructions (Await/Spawn/ChanTake/ChanPut) require JIT compilation"@,
        )),
    }
}

/// An instruction has the operands that it cannot do without.
pub open spec fn inst_ok(inst: Inst) -> bool {
    match inst {
        Inst::CallKnown(_, kf, args) => known_ok(kf, args@.len()),
        Inst::AllocClosure(_, t, _) => template_ok(t),
        _ => true,
    }
}

/// The blocks that `term` names are in `map`.
pub open spec fn term_ok(map: Map<u32, usize>, term: Terminator) -> bool {
    match term {
        Terminator::Jump(t) => map.dom().contains(t.0),
        Terminator::Branch { cond, then_block, else_block } => map.dom().contains(then_block.0) && map.dom().contains(else_block.0),
        Terminator::RecurJump { target, args } => map.dom().contains(target.0),
        _ => true,
    }
}

/// A block is in `map`, with the blocks that it names, and its instructions are in order.
pub open spec fn block_ok(map: Map<u32, usize>, b: Block) -> bool {
    &&& map.dom().contains(b.id.0)
    &&& term_ok(map, b.terminator)
    &&& forall|i: int| 0 <= i < b.insts@.len() ==> inst_ok(#[trigger] b.insts@[i])
}

/// One of `blocks` is named `id`.
pub open spec fn has_block(blocks: Seq<Block>, id: BlockId) -> bool {
    exists|k: int| 0 <= k < blocks.len() && (#[trigger] blocks[k]).id == id
}

/// The blocks that `term` names are among `blocks`.
pub open spec fn names_blocks(blocks: Seq<Block>, term: Terminator) -> bool {
    match term {
        Terminator::Jump(t) => has_block(blocks, t),
        Terminator::Branch { cond, then_block, else_block } => has_block(blocks, then_block) && has_block(blocks, else_block),
        Terminator::RecurJump { target, args } => has_block(blocks, target),
        _ => true,
    }
}

/// A function can be translated: it has an entry, every block that is named exists, and every
/// instruction has the operands that it cannot do without.
pub open spec fn function_ok(func: IrFunction) -> bool {
    &&& func.blocks@.len() > 0
    &&& forall|j: int| 0 <= j < func.blocks@.len() ==> names_blocks(func.blocks@, (#[trigger] func.blocks@[j]).terminator)
    &&& forall|j: int, i: int| 0 <= j < func.blocks@.len() && 0 <= i < func.blocks@[j].insts@.len() ==> inst_ok(#[trigger] func.blocks@[j].insts@[i])
}

/// What an instruction asks for.
pub open spec fn inst_ops(env: EnvView, s: PlanView, inst: Inst) -> Result<PlanView, ErrorView> {
    match inst {
        Inst::SetBang(var, val) => {
            let (s1, a) = use_boxed(env, s, var);
            let (s2, b) = use_boxed(env, s1, val);
            Ok(call_rt_void(s2, RtFn::SetBang, seq![a, b]))
        },
        Inst::Throw(val) => {
            let (s1, a) = use_boxed(env, s, val);
            Ok(call_rt_void(s1, RtFn::Throw, seq![a]))
        },
        Inst::RegionEnd(region) => {
            let (s1, handle) = use_var(env, s, region);
            Ok(call_rt_void(s1, RtFn::RegionEnd, seq![handle]))
        },
        Inst::Phi(_, _) => Ok(s),
        Inst::Recur(_) => Ok(s),
        Inst::SourceLoc(_) => Ok(s),
        _ => match (inst.spec_dst(), inst_value(env, s, inst)) {
            (_, Err(e)) => Err(e),
            (Some(dst), Ok((s1, x))) => Ok(define(env, s1, dst, x)),
            (None, Ok((s1, _))) => Ok(s1),
        },
    }
}

/// The position, from `i` on, of the first entry for the predecessor `from`; their number where
/// there is none.
pub open spec fn entry_for(entries: Seq<(BlockId, VarId)>, from: BlockId, i: int) -> int
    decreases entries.len() - i,
{
    if i < 0 || i >= entries.len() {
        entries.len() as int
    } else if entries[i].0 == from {
        i
    } else {
        entry_for(entries, from, i + 1)
    }
}

/// Reads what the phis from `i` on take on the edge from `from`, behind the values in `done`.
pub open spec fn phi_args(env: EnvView, s: PlanView, phis: Seq<Inst>, from: BlockId, i: int, done: Seq<usize>) -> Result<(PlanView, Seq<usize>), ErrorView>
    decreases phis.len() - i,
{
    if i < 0 || i >= phis.len() {
        Ok((s, done))
    } else {
        match phis[i] {
            Inst::Phi(dst, entries) => {
                let k = entry_for(entries@, from, 0);
                if k < entries@.len() {
                    match coerce(env, s, entries@[k].1, repr_of(env, dst)) {
                        Err(e) => Err(e),
                        Ok((s1, x)) => phi_args(env, s1, phis, from, i + 1, done.push(x)),
                    }
                } else {
                    phi_args(env, s, phis, from, i + 1, done)
                }
            },
            _ => phi_args(env, s, phis, from, i + 1, done),
        }
    }
}

/// Reads what block `to` takes on the edge from `from`.
pub open spec fn edge_args(env: EnvView, s: PlanView, blocks: Seq<Block>, to: BlockId, from: BlockId) -> Result<(PlanView, Seq<usize>), ErrorView> {
    let t = ir::first_block(blocks, to, 0);
    if t < blocks.len() {
        phi_args(env, s, blocks[t].phis@, from, 0, Seq::empty())
    } else {
        Ok((s, Seq::empty()))
    }
}

/// Reads the arguments from `i` on of a jump back to a block with the given phis.
pub open spec fn recur_args(env: EnvView, s: PlanView, args: Seq<VarId>, phis: Seq<Inst>, i: int, done: Seq<usize>) -> Result<(PlanView, Seq<usize>), ErrorView>
    decreases args.len() - i,
{
    if i < 0 || i >= args.len() || i >= phis.len() {
        Ok((s, done))
    } else {
        let target = match phis[i] {
            Inst::Phi(dst, _) => repr_of(env, dst),
            _ => Repr::Boxed,
        };
        match coerce(env, s, args[i], target) {
            Err(e) => Err(e),
            Ok((s1, x)) => recur_args(env, s1, args, phis, i + 1, done.push(x)),
        }
    }
}

/// What the end of block `from` asks for.
pub open spec fn term_ops(env: EnvView, s: PlanView, term: Terminator, from: BlockId, blocks: Seq<Block>) -> Result<PlanView, ErrorView> {
    match term {
        Terminator::Return(v) => {
            let (s1, x) = use_boxed(env, s, v);
            Ok(clif::emit(s1, OpView::Return(x)))
        },
        Terminator::Jump(target) => match edge_args(env, s, blocks, target, from) {
            Err(e) => Err(e),
            Ok((s1, args)) => Ok(clif::emit(s1, OpView::Jump { block: env.blocks[target.0], args })),
        },
        Terminator::Branch { cond, then_block, else_block } => match edge_args(env, s, blocks, then_block, from) {
            Err(e) => Err(e),
            Ok((s1, then_args)) => match edge_args(env, s1, blocks, else_block, from) {
                Err(e) => Err(e),
                Ok((s2, else_args)) => {
                    let then_b = env.blocks[then_block.0];
                    let else_b = env.blocks[else_block.0];
                    match repr_of(env, cond) {
                        Repr::Bool => {
                            let (s3, x) = use_var(env, s2, cond);
                            Ok(clif::emit(s3, OpView::Brif { cond: x, then_block: then_b, then_args, else_block: else_b, else_args }))
                        },
                        Repr::Boxed => {
                            let (s3, x) = use_var(env, s2, cond);
                            let (s4, t) = call_rt(s3, RtFn::Truthiness, seq![x]);
                            Ok(clif::emit(s4, OpView::Brif { cond: t, then_block: then_b, then_args, else_block: else_b, else_args }))
                        },
                        _ => Ok(clif::emit(s2, OpView::Jump { block: then_b, args: then_args })),
                    }
                },
            },
        },
        Terminator::RecurJump { target, args } => {
            let s1 = call_rt_void(s, RtFn::Safepoint, Seq::empty());
            let t = ir::first_block(blocks, target, 0);
            let read = if t < blocks.len() {
                recur_args(env, s1, args@, blocks[t].phis@, 0, Seq::empty())
            } else {
                Ok(use_all_boxed(env, s1, args@, 0, Seq::empty()))
            };
            match read {
                Err(e) => Err(e),
                Ok((s2, xs)) => Ok(clif::emit(s2, OpView::Jump { block: env.blocks[target.0], args: xs })),
            }
        },
        Terminator::Unreachable => {
            let (s1, nil) = call_rt(s, RtFn::ConstNil, Seq::empty());
            Ok(clif::emit(s1, OpView::Return(nil)))
        },
    }
}

/// The phis from `i` on, as parameters of the block.
pub open spec fn phi_params(env: EnvView, s: PlanView, block: usize, phis: Seq<Inst>, i: int) -> PlanView
    decreases phis.len() - i,
{
    if i < 0 || i >= phis.len() {
        s
    } else {
        match phis[i] {
            Inst::Phi(dst, _) => {
                let s1 = ensure_var(env, s, dst);
                let (s2, p) = req(s1, OpView::AppendParam { block, ty: clif_ty(repr_of(env, dst)) });
                phi_params(env, clif::emit(s2, OpView::DefVar { var: dst, value: p }), block, phis, i + 1)
            },
            _ => phi_params(env, s, block, phis, i + 1),
        }
    }
}

/// What the instructions from `i` on ask for.
pub open spec fn insts_ops(env: EnvView, s: PlanView, insts: Seq<Inst>, i: int) -> Result<PlanView, ErrorView>
    decreases insts.len() - i,
{
    if i < 0 || i >= insts.len() {
        Ok(s)
    } else {
        match inst_ops(env, s, insts[i]) {
            Err(e) => Err(e),
            Ok(s1) => insts_ops(env, s1, insts, i + 1),
        }
    }
}

/// What a block asks for; `switch` tells whether it has to be switched to.
pub open spec fn block_ops(env: EnvView, s: PlanView, b: Block, switch: bool, blocks: Seq<Block>) -> Result<PlanView, ErrorView> {
    let block = env.blocks[b.id.0];
    let s1 = if switch { clif::emit(s, OpView::SwitchTo(block)) } else { s };
    let s2 = phi_params(env, s1, block, b.phis@, 0);
    match insts_ops(env, s2, b.insts@, 0) {
        Err(e) => Err(e),
        Ok(s3) => term_ops(env, s3, b.terminator, b.id, blocks),
    }
}

/// What the blocks from `i` on ask for.
pub open spec fn blocks_ops(env: EnvView, s: PlanView, blocks: Seq<Block>, specialized: bool, i: int) -> Result<PlanView, ErrorView>
    decreases blocks.len() - i,
{
    if i < 0 || i >= blocks.len() {
        Ok(s)
    } else {
        match block_ops(env, s, blocks[i], i > 0 || specialized, blocks) {
            Err(e) => Err(e),
            Ok(s1) => blocks_ops(env, s1, blocks, specialized, i + 1),
        }
    }
}

/// Creates a block for each of `blocks` from `i` on, and records it by number.
pub open spec fn create_blocks(s: PlanView, map: Map<u32, usize>, blocks: Seq<Block>, i: int) -> (PlanView, Map<u32, usize>)
    decreases blocks.len() - i,
{
    if i < 0 || i >= blocks.len() {
        (s, map)
    } else {
        let (s1, b) = req(s, OpView::CreateBlock);
        create_blocks(s1, map.insert(blocks[i].id.0, b), blocks, i + 1)
    }
}

/// Binds the parameters from `i` on to those of the entry block.
pub open spec fn bind_params(env: EnvView, s: PlanView, entry: usize, params: Seq<(String, VarId)>, i: int) -> PlanView
    decreases params.len() - i,
{
    if i < 0 || i >= params.len() {
        s
    } else {
        let v = params[i].1;
        let s1 = ensure_var(env, s, v);
        let (s2, p) = req(s1, OpView::BlockParam { block: entry, index: i as usize });
        bind_params(env, clif::emit(s2, OpView::DefVar { var: v, value: p }), entry, params, i + 1)
    }
}

/// The representation that the caller asks for at parameter `i`.
pub open spec fn spec_at(specs: Seq<Repr>, i: int) -> Repr {
    if 0 <= i < specs.len() { specs[i] } else { Repr::Boxed }
}

/// The tag of a value of the given representation.
pub open spec fn guard_tag(r: Repr) -> i64 {
    if r == Repr::Long { 1 } else { 2 }
}

/// Guards and unboxes the parameters from `i` on; a failing guard goes to `deopt`.
pub open spec fn guard_params(env: EnvView, s: PlanView, prologue: usize, deopt: usize, params: Seq<(String, VarId)>, specs: Seq<Repr>, i: int) -> PlanView
    decreases params.len() - i,
{
    if i < 0 || i >= params.len() {
        s
    } else {
        let v = params[i].1;
        let r = spec_at(specs, i);
        let (s1, raw) = req(s, OpView::BlockParam { block: prologue, index: i as usize });
        if r == Repr::Long || r == Repr::Double {
            let (s2, tag) = call_rt(s1, RtFn::ValueTag, seq![raw]);
            let (s3, ok) = req(s2, OpView::IntTestImm { cond: IntCond::Equal, a: tag, imm: guard_tag(r) });
            let (s4, cont) = req(s3, OpView::CreateBlock);
            let s5 = clif::emit(s4, OpView::Brif { cond: ok, then_block: cont, then_args: Seq::empty(), else_block: deopt, else_args: Seq::empty() });
            let s6 = clif::emit(s5, OpView::SwitchTo(cont));
            let (s7, x) = call_rt(s6, if r == Repr::Long { RtFn::UnboxLong } else { RtFn::UnboxDouble }, seq![raw]);
            guard_params(env, define(env, s7, v, x), prologue, deopt, params, specs, i + 1)
        } else {
            guard_params(env, define(env, s1, v, raw), prologue, deopt, params, specs, i + 1)
        }
    }
}

/// The region parameter, behind the others, where the function takes one.
pub open spec fn region_param(s: PlanView, func: IrFunction, entry: usize) -> (PlanView, Option<usize>) {
    if func.spec_takes_region_param() {
        let (s1, p) = req(s, OpView::BlockParam { block: entry, index: func.params@.len() as usize });
        (s1, Some(p))
    } else {
        (s, None)
    }
}

/// Some parameter is specialized.
pub open spec fn is_specialized(func: IrFunction, specs: Seq<Repr>) -> bool {
    exists|i: int| 0 <= i < func.params@.len() && #[trigger] spec_at(specs, i) != Repr::Boxed
}

/// The way in: where parameters are specialized, a block that guards and unboxes them before the
/// body and falls back to the interpreter through one shared exit; otherwise the entry block binds
/// them as they come.
pub open spec fn entry_ops(env: EnvView, s: PlanView, func: IrFunction, specs: Seq<Repr>, prologue: usize) -> (PlanView, Option<usize>) {
    let entry = env.blocks[func.blocks@[0].id.0];
    if is_specialized(func, specs) {
        let s1 = clif::emit(clif::emit(s, OpView::SwitchTo(prologue)), OpView::FunctionParams(prologue));
        let (s2, deopt) = req(s1, OpView::CreateBlock);
        let s3 = guard_params(env, s2, prologue, deopt, func.params@, specs, 0);
        let (s4, region) = region_param(s3, func, prologue);
        let s5 = call_rt_void(s4, RtFn::Safepoint, Seq::empty());
        let s6 = clif::emit(s5, OpView::Jump { block: entry, args: Seq::empty() });
        let s7 = clif::emit(s6, OpView::SwitchTo(deopt));
        let (s8, sentinel) = call_rt(s7, RtFn::Deopt, Seq::empty());
        (clif::emit(s8, OpView::Return(sentinel)), region)
    } else {
        let s1 = clif::emit(clif::emit(s, OpView::SwitchTo(entry)), OpView::FunctionParams(entry));
        let s2 = bind_params(env, s1, entry, func.params@, 0);
        let (s3, region) = region_param(s2, func, entry);
        (call_rt_void(s3, RtFn::Safepoint, Seq::empty()), region)
    }
}

/// A plan without requests.
pub open spec fn empty_plan() -> PlanView {
    PlanView { ops: Seq::empty(), declared: Set::empty() }
}

/// The plan of a function: what compiling it asks of the code generator.
pub open spec fn function_plan(func: IrFunction, reprs: Map<u32, Repr>, funcs: Seq<Seq<char>>, specs: Seq<Repr>) -> Result<PlanView, ErrorView> {
    let specialized = is_specialized(func, specs);
    let (s1, prologue) = if specialized { req(empty_plan(), OpView::CreateBlock) } else { (empty_plan(), 0usize) };
    let (s2, map) = create_blocks(s1, Map::empty(), func.blocks@, 0);
    let pins = ir::texts_view(func.pins@);
    let env = EnvView { reprs, funcs, blocks: map, region: None, pins };
    let (s3, region) = entry_ops(env, s2, func, specs, prologue);
    match blocks_ops(EnvView { reprs, funcs, blocks: map, region, pins }, s3, func.blocks@, specialized, 0) {
        Err(e) => Err(e),
        Ok(s4) => Ok(clif::emit(s4, OpView::SealAll)),
    }
}

} // verus!
