//! Code generation: turns a function into a plan for the code generator, and carries it out.
use crate::bridge::{ClifTy, RtFn};
use crate::clif;
use crate::clif::{Arith, Cell, FloatCond, IntCond, Op, OpView, Plan, PlanView};
use crate::emission;
use crate::emission::{EnvView, ErrorView};
use crate::ir;
use crate::ir::{find_block, Block, BlockId, ClosureTemplate, Const, Inst, IrFunction, KnownFn, RegionAllocKind, Repr, Terminator, VarId};
use crate::text::{render_decimal, same};
use std::collections::HashMap;
use vstd::prelude::*;
use vstd::string::*;

verus! {

broadcast use vstd::std_specs::hash::group_hash_axioms;

/// Why a function could not be compiled.
#[derive(Debug)]
pub enum CodegenError {
    /// The object module refused a declaration or definition.
    Module(cranelift_module::ModuleError),
    Codegen(String),
    UnsupportedInst(String),
}

impl View for CodegenError {
    type V = ErrorView;

    open spec fn view(&self) -> ErrorView {
        match *self {
            CodegenError::Module(_) => ErrorView::Module,
            CodegenError::Codegen(t) => ErrorView::Codegen(t@),
            CodegenError::UnsupportedInst(t) => ErrorView::UnsupportedInst(t@),
        }
    }
}

/// `r` and the plan that goes with it are what `want` says.
pub open spec fn agrees(r: Result<usize, CodegenError>, plan: PlanView, want: Result<(PlanView, usize), ErrorView>) -> bool {
    match (r, want) {
        (Ok(x), Ok((s, y))) => x == y && plan == s,
        (Err(e), Err(f)) => e@ == f,
        _ => false,
    }
}

/// The same, for a list of values.
pub open spec fn agrees_all(r: Result<Vec<usize>, CodegenError>, plan: PlanView, want: Result<(PlanView, Seq<usize>), ErrorView>) -> bool {
    match (r, want) {
        (Ok(xs), Ok((s, ys))) => xs@ == ys && plan == s,
        (Err(e), Err(f)) => e@ == f,
        _ => false,
    }
}

/// The same, for requests alone.
pub open spec fn agrees_unit(r: Result<(), CodegenError>, plan: PlanView, want: Result<PlanView, ErrorView>) -> bool {
    match (r, want) {
        (Ok(_), Ok(s)) => plan == s,
        (Err(e), Err(f)) => e@ == f,
        _ => false,
    }
}

fn list1(a: usize) -> (r: Vec<usize>)
    ensures
        r@ == seq![a],
{
    let mut v: Vec<usize> = Vec::new();
    v.push(a);
    v
}

fn list2(a: usize, b: usize) -> (r: Vec<usize>)
    ensures
        r@ == seq![a, b],
{
    let mut v = list1(a);
    v.push(b);
    v
}

fn list3(a: usize, b: usize, c: usize) -> (r: Vec<usize>)
    ensures
        r@ == seq![a, b, c],
{
    let mut v = list2(a, b);
    v.push(c);
    v
}

fn list4(a: usize, b: usize, c: usize, d: usize) -> (r: Vec<usize>)
    ensures
        r@ == seq![a, b, c, d],
{
    let mut v = list3(a, b, c);
    v.push(d);
    v
}

/// The name of a representation.
pub fn repr_label(r: Repr) -> (t: &'static str)
    ensures
        t@ == emission::repr_name(r),
{
    match r {
        Repr::Boxed => "Boxed",
        Repr::Long => "Long",
        Repr::Double => "Double",
        Repr::Bool => "Bool",
    }
}

/// The name of a known function.
pub fn known_label(kf: KnownFn) -> (t: &'static str)
    ensures
        t@ == emission::known_name(kf),
{
    match kf {
        KnownFn::Vector => "Vector",
        KnownFn::HashMap => "HashMap",
        KnownFn::HashSet => "HashSet",
        KnownFn::List => "List",
        KnownFn::Assoc => "Assoc",
        KnownFn::Dissoc => "Dissoc",
        KnownFn::Conj => "Conj",
        KnownFn::Disj => "Disj",
        KnownFn::Get => "Get",
        KnownFn::Nth => "Nth",
        KnownFn::Count => "Count",
        KnownFn::Contains => "Contains",
        KnownFn::Transient => "Transient",
        KnownFn::AssocBang => "AssocBang",
        KnownFn::ConjBang => "ConjBang",
        KnownFn::PersistentBang => "PersistentBang",
        KnownFn::First => "First",
        KnownFn::Rest => "Rest",
        KnownFn::Next => "Next",
        KnownFn::Cons => "Cons",
        KnownFn::ToSeq => "Seq",
        KnownFn::LazySeq => "LazySeq",
        KnownFn::Add => "Add",
        KnownFn::Sub => "Sub",
        KnownFn::Mul => "Mul",
        KnownFn::Div => "Div",
        KnownFn::Rem => "Rem",
        KnownFn::Eq => "Eq",
        KnownFn::Lt => "Lt",
        KnownFn::Gt => "Gt",
        KnownFn::Lte => "Lte",
        KnownFn::Gte => "Gte",
        KnownFn::IsNil => "IsNil",
        KnownFn::IsSeq => "IsSeq",
        KnownFn::IsVector => "IsVector",
        KnownFn::IsMap => "IsMap",
        KnownFn::Identical => "Identical",
        KnownFn::Str => "Str",
        KnownFn::Deref => "Deref",
        KnownFn::Println => "Println",
        KnownFn::Pr => "Pr",
        KnownFn::AtomDeref => "AtomDeref",
        KnownFn::AtomReset => "AtomReset",
        KnownFn::AtomSwap => "AtomSwap",
        KnownFn::Apply => "Apply",
        KnownFn::TryCatchFinally => "TryCatchFinally",
        KnownFn::CountFilter => "CountFilter",
        KnownFn::IntoFilter => "IntoFilter",
        KnownFn::IntoMapcat => "IntoMapcat",
        KnownFn::IntoMap => "IntoMap",
        KnownFn::SetBangVar => "SetBangVar",
        KnownFn::WithBindings => "WithBindings",
        KnownFn::Reduce2 => "Reduce2",
        KnownFn::Reduce3 => "Reduce3",
        KnownFn::MapSeq => "Map",
        KnownFn::Filter => "Filter",
        KnownFn::Mapv => "Mapv",
        KnownFn::Filterv => "Filterv",
        KnownFn::SomePred => "Some",
        KnownFn::Every => "Every",
        KnownFn::Into => "Into",
        KnownFn::Into3 => "Into3",
        KnownFn::Range1 => "Range1",
        KnownFn::Range2 => "Range2",
        KnownFn::Range3 => "Range3",
        KnownFn::Take => "Take",
        KnownFn::Drop => "Drop",
        KnownFn::Reverse => "Reverse",
        KnownFn::Sort => "Sort",
        KnownFn::SortBy => "SortBy",
        KnownFn::Concat => "Concat",
        KnownFn::Keys => "Keys",
        KnownFn::Vals => "Vals",
        KnownFn::Merge => "Merge",
        KnownFn::Update => "Update",
        KnownFn::GetIn => "GetIn",
        KnownFn::AssocIn => "AssocIn",
        KnownFn::IsNumber => "IsNumber",
        KnownFn::IsString => "IsString",
        KnownFn::IsKeyword => "IsKeyword",
        KnownFn::IsSymbol => "IsSymbol",
        KnownFn::IsBool => "IsBool",
        KnownFn::IsInt => "IsInt",
        KnownFn::Prn => "Prn",
        KnownFn::Print => "Print",
        KnownFn::Atom => "Atom",
        KnownFn::GroupBy => "GroupBy",
        KnownFn::Partition2 => "Partition2",
        KnownFn::Partition3 => "Partition3",
        KnownFn::Partition4 => "Partition4",
        KnownFn::Frequencies => "Frequencies",
        KnownFn::Keep => "Keep",
        KnownFn::Remove => "Remove",
        KnownFn::MapIndexed => "MapIndexed",
        KnownFn::Zipmap => "Zipmap",
        KnownFn::Juxt => "Juxt",
        KnownFn::Comp => "Comp",
        KnownFn::Partial => "Partial",
        KnownFn::Complement => "Complement",
        KnownFn::WithOutStr => "WithOutStr",
        KnownFn::Peek => "Peek",
        KnownFn::Pop => "Pop",
        KnownFn::Vec => "Vec",
        KnownFn::Mapcat => "Mapcat",
        KnownFn::IsEmpty => "IsEmpty",
        KnownFn::Repeatedly => "Repeatedly",
    }
}

/// How a value is written.
pub fn var_label(v: VarId) -> (t: String)
    ensures
        t@ == emission::var_text(v),
{
    "v".to_owned().concat(render_decimal(v.0 as u64).as_str())
}

/// The machine type behind a representation.
pub fn machine_ty(r: Repr) -> (t: ClifTy)
    ensures
        t == emission::clif_ty(r),
{
    match r {
        Repr::Boxed => ClifTy::Ptr,
        Repr::Long => ClifTy::I64,
        Repr::Double => ClifTy::F64,
        Repr::Bool => ClifTy::I8,
    }
}

fn variadic_target(kf: KnownFn, argc: usize) -> (r: Option<RtFn>)
    ensures
        r == emission::variadic_bridge(kf, argc as nat),
{
    match kf {
        KnownFn::Vector => Some(RtFn::AllocVector),
        KnownFn::HashMap => Some(RtFn::AllocMap),
        KnownFn::HashSet => Some(RtFn::AllocSet),
        KnownFn::List => Some(RtFn::AllocList),
        KnownFn::Concat => Some(RtFn::Concat),
        KnownFn::Str => if argc != 1 { Some(RtFn::StrN) } else { None },
        KnownFn::Println => if argc != 1 { Some(RtFn::PrintlnN) } else { None },
        KnownFn::Merge => Some(RtFn::Merge),
        KnownFn::Juxt => Some(RtFn::Juxt),
        KnownFn::Comp => Some(RtFn::Comp),
        KnownFn::Partial => Some(RtFn::Partial),
        _ => None,
    }
}

fn fixed_target(kf: KnownFn) -> (r: Option<RtFn>)
    ensures
        r == emission::fixed_bridge(kf),
{
    match kf {
        KnownFn::Add => Some(RtFn::Add),
        KnownFn::Sub => Some(RtFn::Sub),
        KnownFn::Mul => Some(RtFn::Mul),
        KnownFn::Div => Some(RtFn::Div),
        KnownFn::Rem => Some(RtFn::Rem),
        KnownFn::Eq => Some(RtFn::Eq),
        KnownFn::Lt => Some(RtFn::Lt),
        KnownFn::Gt => Some(RtFn::Gt),
        KnownFn::Lte => Some(RtFn::Lte),
        KnownFn::Gte => Some(RtFn::Gte),
        KnownFn::Get => Some(RtFn::Get),
        KnownFn::Count => Some(RtFn::Count),
        KnownFn::CountFilter => Some(RtFn::CountFilter),
        KnownFn::IntoFilter => Some(RtFn::IntoFilter),
        KnownFn::IntoMapcat => Some(RtFn::IntoMapcat),
        KnownFn::IntoMap => Some(RtFn::IntoMap),
        KnownFn::First => Some(RtFn::First),
        KnownFn::Rest | KnownFn::Next => Some(RtFn::Rest),
        KnownFn::Assoc => Some(RtFn::Assoc),
        KnownFn::Conj => Some(RtFn::Conj),
        KnownFn::Deref | KnownFn::AtomDeref => Some(RtFn::Deref),
        KnownFn::Println => Some(RtFn::Println),
        KnownFn::Pr => Some(RtFn::Pr),
        KnownFn::IsNil => Some(RtFn::IsNil),
        KnownFn::IsVector => Some(RtFn::IsVector),
        KnownFn::IsMap => Some(RtFn::IsMap),
        KnownFn::IsSeq => Some(RtFn::IsSeq),
        KnownFn::Identical => Some(RtFn::Identical),
        KnownFn::Str => Some(RtFn::Str),
        KnownFn::TryCatchFinally => Some(RtFn::Try),
        KnownFn::Dissoc => Some(RtFn::Dissoc),
        KnownFn::Disj => Some(RtFn::Disj),
        KnownFn::Nth => Some(RtFn::Nth),
        KnownFn::Contains => Some(RtFn::Contains),
        KnownFn::Cons => Some(RtFn::AllocCons),
        KnownFn::ToSeq => Some(RtFn::ToSeq),
        KnownFn::LazySeq => Some(RtFn::LazySeq),
        KnownFn::Transient => Some(RtFn::Transient),
        KnownFn::AssocBang => Some(RtFn::AssocBang),
        KnownFn::ConjBang => Some(RtFn::ConjBang),
        KnownFn::PersistentBang => Some(RtFn::PersistentBang),
        KnownFn::AtomReset => Some(RtFn::AtomReset),
        KnownFn::Apply => Some(RtFn::Apply),
        KnownFn::SetBangVar => Some(RtFn::SetBang),
        KnownFn::Reduce2 => Some(RtFn::Reduce2),
        KnownFn::Reduce3 => Some(RtFn::Reduce3),
        KnownFn::MapSeq => Some(RtFn::MapSeq),
        KnownFn::Filter => Some(RtFn::Filter),
        KnownFn::Mapv => Some(RtFn::Mapv),
        KnownFn::Filterv => Some(RtFn::Filterv),
        KnownFn::SomePred => Some(RtFn::SomePred),
        KnownFn::Every => Some(RtFn::Every),
        KnownFn::Into => Some(RtFn::Into),
        KnownFn::Into3 => Some(RtFn::Into3),
        KnownFn::Range1 => Some(RtFn::Range1),
        KnownFn::Range2 => Some(RtFn::Range2),
        KnownFn::Range3 => Some(RtFn::Range3),
        KnownFn::Take => Some(RtFn::Take),
        KnownFn::Drop => Some(RtFn::Drop),
        KnownFn::Reverse => Some(RtFn::Reverse),
        KnownFn::Sort => Some(RtFn::Sort),
        KnownFn::SortBy => Some(RtFn::SortBy),
        KnownFn::Keys => Some(RtFn::Keys),
        KnownFn::Vals => Some(RtFn::Vals),
        KnownFn::Update => Some(RtFn::Update),
        KnownFn::GetIn => Some(RtFn::GetIn),
        KnownFn::AssocIn => Some(RtFn::AssocIn),
        KnownFn::IsNumber => Some(RtFn::IsNumber),
        KnownFn::IsString => Some(RtFn::IsString),
        KnownFn::IsKeyword => Some(RtFn::IsKeyword),
        KnownFn::IsSymbol => Some(RtFn::IsSymbol),
        KnownFn::IsBool => Some(RtFn::IsBool),
        KnownFn::IsInt => Some(RtFn::IsInt),
        KnownFn::Prn => Some(RtFn::Prn),
        KnownFn::Print => Some(RtFn::Print),
        KnownFn::Atom => Some(RtFn::Atom),
        KnownFn::GroupBy => Some(RtFn::GroupBy),
        KnownFn::Partition2 => Some(RtFn::Partition2),
        KnownFn::Partition3 => Some(RtFn::Partition3),
        KnownFn::Partition4 => Some(RtFn::Partition4),
        KnownFn::Frequencies => Some(RtFn::Frequencies),
        KnownFn::Keep => Some(RtFn::Keep),
        KnownFn::Remove => Some(RtFn::Remove),
        KnownFn::MapIndexed => Some(RtFn::MapIndexed),
        KnownFn::Zipmap => Some(RtFn::Zipmap),
        KnownFn::Complement => Some(RtFn::Complement),
        KnownFn::WithOutStr => Some(RtFn::WithOutStr),
        KnownFn::Peek => Some(RtFn::Peek),
        KnownFn::Pop => Some(RtFn::Pop),
        KnownFn::Vec => Some(RtFn::Vec),
        KnownFn::Mapcat => Some(RtFn::Mapcat),
        KnownFn::IsEmpty => Some(RtFn::IsEmpty),
        KnownFn::Repeatedly => Some(RtFn::Repeatedly),
        _ => None,
    }
}

fn region_target(kind: RegionAllocKind) -> (r: RtFn)
    ensures
        r == emission::region_bridge(kind),
{
    match kind {
        RegionAllocKind::Vector => RtFn::RegionAllocVector,
        RegionAllocKind::HashMap => RtFn::RegionAllocMap,
        RegionAllocKind::HashSet => RtFn::RegionAllocSet,
        RegionAllocKind::List => RtFn::RegionAllocList,
        RegionAllocKind::Cons => RtFn::RegionAllocCons,
    }
}

pub open spec fn names_view(names: Seq<String>) -> Seq<Seq<char>> {
    names.map_values(|n: String| n@)
}

/// Whether a text is in a list.
fn is_among(names: &Vec<String>, name: &str) -> (r: bool)
    ensures
        r == ir::texts_view(names@).contains(name@),
{
    let ghost texts = ir::texts_view(names@);
    let mut i: usize = 0;
    while i < names.len()
        invariant
            i <= names@.len(),
            texts == ir::texts_view(names@),
            forall|k: int| 0 <= k < i ==> #[trigger] texts[k] != name@,
        decreases names@.len() - i,
    {
        assert(texts[i as int] == names@[i as int]@);
        if same(names[i].as_str(), name) {
            return true;
        }
        i += 1;
    }
    false
}

/// Translates one function.  What it has asked for so far stands in a plan of its own.
pub struct FunctionTranslator<'a> {
    /// The representation of each value; missing ones are boxed.
    pub reprs: HashMap<u32, Repr>,
    /// The functions that can be called by name.
    pub user_funcs: &'a Vec<String>,
    /// The block of the plan for each block of the function, by number.
    pub block_map: HashMap<u32, usize>,
    /// The caller's region, where the function takes one.
    pub region_param: Option<usize>,
    /// The names of globals that are pinned to a commit.
    pub pins: &'a Vec<String>,
}

impl<'a> FunctionTranslator<'a> {
    /// What a translation reads.
    pub open spec fn env(&self) -> EnvView {
        EnvView {
            reprs: self.reprs@,
            funcs: names_view(self.user_funcs@),
            blocks: self.block_map@,
            region: self.region_param,
            pins: ir::texts_view(self.pins@),
        }
    }

    fn repr_of(&self, v: VarId) -> (r: Repr)
        ensures
            r == emission::repr_of(self.env(), v),
    {
        match self.reprs.get(&v.0) {
            Some(r) => *r,
            None => Repr::Boxed,
        }
    }

    fn is_declared(&self, name: &str) -> (r: bool)
        ensures
            r == self.env().funcs.contains(name@),
    {
        assert(ir::texts_view(self.user_funcs@) =~= names_view(self.user_funcs@));
        is_among(self.user_funcs, name)
    }

    fn emit_load_global(&self, plan: &mut Plan, ns: &str, name: &str) -> (r: usize)
        ensures
            (final(plan)@, r) == emission::load_global(self.env(), old(plan)@, ns@, name@),
    {
        if is_among(self.pins, name) {
            emit_load_global_versioned_ic(plan, ns, name)
        } else {
            let args = emit_qualified(plan, ns, name);
            call_bridge(plan, RtFn::LoadGlobal, args)
        }
    }

    fn ensure_var(&self, plan: &mut Plan, v: VarId)
        ensures
            final(plan)@ == emission::ensure_var(self.env(), old(plan)@, v),
    {
        if !plan.declared.contains(&v.0) {
            let ty = machine_ty(self.repr_of(v));
            plan.emit(Op::DeclareVar { var: v, ty });
            plan.declared.insert(v.0);
        }
    }

    fn define(&self, plan: &mut Plan, v: VarId, value: usize)
        ensures
            final(plan)@ == emission::define(self.env(), old(plan)@, v, value),
    {
        self.ensure_var(plan, v);
        plan.emit(Op::DefVar { var: v, value });
    }

    fn use_var(&self, plan: &mut Plan, v: VarId) -> (r: usize)
        ensures
            (final(plan)@, r) == emission::use_var(self.env(), old(plan)@, v),
    {
        self.ensure_var(plan, v);
        plan.emit(Op::UseVar(v))
    }

    fn use_var_boxed(&self, plan: &mut Plan, v: VarId) -> (r: usize)
        ensures
            (final(plan)@, r) == emission::use_boxed(self.env(), old(plan)@, v),
    {
        let raw: usize = self.use_var(plan, v);
        match self.repr_of(v) {
            Repr::Boxed => raw,
            Repr::Long => call_bridge(plan, RtFn::ConstLong, list1(raw)),
            Repr::Double => call_bridge(plan, RtFn::ConstDouble, list1(raw)),
            Repr::Bool => call_bridge(plan, RtFn::BoxBool, list1(raw)),
        }
    }

    fn use_all_boxed(&self, plan: &mut Plan, vs: &Vec<VarId>) -> (r: Vec<usize>)
        ensures
            (final(plan)@, r@) == emission::use_all_boxed(self.env(), old(plan)@, vs@, 0, Seq::empty()),
    {
        let ghost start = plan@;
        let mut out: Vec<usize> = Vec::new();
        let mut i: usize = 0;
        while i < vs.len()
            invariant
                i <= vs@.len(),
                emission::use_all_boxed(self.env(), start, vs@, 0, Seq::empty()) == emission::use_all_boxed(self.env(), plan@, vs@, i as int, out@),
            decreases vs@.len() - i,
        {
            let x: usize = self.use_var_boxed(plan, vs[i]);
            out.push(x);
            i += 1;
        }
        out
    }

    /// Reads `v` for a phi of representation `target`.
    fn coerce_to(&self, plan: &mut Plan, v: VarId, target: Repr) -> (r: Result<usize, CodegenError>)
        ensures
            agrees(r, final(plan)@, emission::coerce(self.env(), old(plan)@, v, target)),
    {
        let src = self.repr_of(v);
        if src == target {
            Ok(self.use_var(plan, v))
        } else if target == Repr::Boxed {
            Ok(self.use_var_boxed(plan, v))
        } else {
            let msg = "phi repr mismatch: ".to_owned().concat(var_label(v).as_str()).concat(" is ").concat(
                repr_label(src),
            ).concat(", phi expects ").concat(repr_label(target));
            Err(CodegenError::Codegen(msg))
        }
    }

    fn use_var_f64(&self, plan: &mut Plan, v: VarId) -> (r: Result<usize, CodegenError>)
        ensures
            agrees(r, final(plan)@, emission::use_f64(self.env(), old(plan)@, v)),
    {
        let raw: usize = self.use_var(plan, v);
        match self.repr_of(v) {
            Repr::Double => Ok(raw),
            Repr::Long => Ok(plan.emit(Op::FcvtFromSint(raw))),
            other => Err(
                CodegenError::Codegen(
                    "cannot widen ".to_owned().concat(repr_label(other)).concat(" var ").concat(
                        var_label(v).as_str(),
                    ).concat(" to f64"),
                ),
            ),
        }
    }
}

/// The sum, difference or product of two raw integers; where it does not fit in a word, an overflow
/// is thrown.
fn emit_checked(plan: &mut Plan, kf: KnownFn, x: usize, y: usize) -> (r: usize)
    requires
        emission::is_arith(kf),
    ensures
        (final(plan)@, r) == emission::checked_arith(old(plan)@, kf, x, y),
{
    let op = match kf {
        KnownFn::Add => Arith::Iadd,
        KnownFn::Sub => Arith::Isub,
        _ => Arith::Imul,
    };
    let r: usize = plan.emit(Op::Binary { op, a: x, b: y });
    let fits: usize = if kf == KnownFn::Mul {
        let high: usize = plan.emit(Op::Binary { op: Arith::Smulhi, a: x, b: y });
        let one: usize = iconst_long(plan, 1);
        let sign: usize = plan.emit(Op::Binary { op: Arith::Smulhi, a: r, b: one });
        plan.emit(Op::IntTest { cond: IntCond::Equal, a: high, b: sign })
    } else {
        let less: usize = plan.emit(Op::IntTest { cond: IntCond::SignedLessThan, a: r, b: x });
        let cond = if kf == KnownFn::Add { IntCond::SignedLessThan } else { IntCond::SignedGreaterThan };
        let down: usize = plan.emit(Op::IntTestImm { cond, a: y, imm: 0 });
        plan.emit(Op::IntTest { cond: IntCond::Equal, a: less, b: down })
    };
    emit_overflow_branch(plan, fits);
    r
}

fn emit_overflow_branch(plan: &mut Plan, fits: usize)
    ensures
        final(plan)@ == emission::overflow_branch(old(plan)@, fits),
{
    let over: usize = plan.emit(Op::CreateBlock);
    let cont: usize = plan.emit(Op::CreateBlock);
    plan.emit(Op::Brif { cond: fits, then_block: cont, then_args: Vec::new(), else_block: over, else_args: Vec::new() });
    plan.emit(Op::SwitchTo(over));
    let error: usize = call_bridge(plan, RtFn::OverflowError, Vec::new());
    let nil: usize = call_bridge(plan, RtFn::Throw, list1(error));
    plan.emit(Op::Return(nil));
    plan.emit(Op::SwitchTo(cont));
}

fn call_bridge(plan: &mut Plan, f: RtFn, args: Vec<usize>) -> (r: usize)
    ensures
        (final(plan)@, r) == emission::call_rt(old(plan)@, f, args@),
{
    let func: usize = plan.emit(Op::ImportRt(f));
    plan.emit(Op::Call { func, args })
}

fn call_bridge_void(plan: &mut Plan, f: RtFn, args: Vec<usize>)
    ensures
        final(plan)@ == emission::call_rt_void(old(plan)@, f, args@),
{
    let func: usize = plan.emit(Op::ImportRt(f));
    plan.emit(Op::CallVoid { func, args });
}


fn iconst_long(plan: &mut Plan, value: i64) -> (r: usize)
    ensures
        (final(plan)@, r) == emission::iconst64(old(plan)@, value),
{
    plan.emit(Op::Iconst { ty: ClifTy::I64, value })
}

fn null_pointer(plan: &mut Plan) -> (r: usize)
    ensures
        (final(plan)@, r) == emission::null_ptr(old(plan)@),
{
    plan.emit(Op::Iconst { ty: ClifTy::Ptr, value: 0 })
}

fn text_len(t: &str) -> (r: i64)
    ensures
        r == emission::byte_len(t@),
{
    let n: usize = t.len();
    n as i64
}

/// A data object with a text: its address and length.
fn emit_text(plan: &mut Plan, t: &str) -> (r: (usize, usize))
    ensures
        (final(plan)@, r.0, r.1) == emission::text_ptr(old(plan)@, t@),
{
    let data: usize = plan.emit(Op::TextData(t.to_owned()));
    let ptr: usize = plan.emit(Op::DataAddr(data));
    let len: usize = iconst_long(plan, text_len(t));
    (ptr, len)
}

fn emit_string_const(plan: &mut Plan, f: RtFn, t: &str) -> (r: usize)
    ensures
        (final(plan)@, r) == emission::text_const(old(plan)@, f, t@),
{
    let (ptr, len) = emit_text(plan, t);
    call_bridge(plan, f, list2(ptr, len))
}

/// The head of an inline cache: the slot of this site, the block to go on in, and its parameter.
fn emit_cache_head(plan: &mut Plan) -> (r: (usize, usize, usize))
    ensures
        (final(plan)@, r.0, r.1, r.2) == emission::cache_head(old(plan)@),
{
    let data: usize = plan.emit(Op::ZeroData);
    let slot: usize = plan.emit(Op::DataAddr(data));
    let cached: usize = plan.emit(Op::LoadPtr(slot));
    let miss: usize = plan.emit(Op::CreateBlock);
    let merge: usize = plan.emit(Op::CreateBlock);
    let param: usize = plan.emit(Op::AppendParam { block: merge, ty: ClifTy::Ptr });
    plan.emit(
        Op::Brif {
            cond: cached,
            then_block: merge,
            then_args: list1(cached),
            else_block: miss,
            else_args: Vec::new(),
        },
    );
    plan.emit(Op::SwitchTo(miss));
    (slot, merge, param)
}

fn emit_cache_tail(plan: &mut Plan, merge: usize, filled: usize)
    ensures
        final(plan)@ == emission::cache_tail(old(plan)@, merge, filled),
{
    plan.emit(Op::Jump { block: merge, args: list1(filled) });
    plan.emit(Op::SwitchTo(merge));
}

/// A keyword, through an inline cache of this site.
fn emit_keyword_ic(plan: &mut Plan, t: &str) -> (r: usize)
    ensures
        (final(plan)@, r) == emission::keyword_ic(old(plan)@, t@),
{
    let (slot, merge, param) = emit_cache_head(plan);
    let (ptr, len) = emit_text(plan, t);
    let filled: usize = call_bridge(plan, RtFn::KwIcFill, list3(ptr, len, slot));
    emit_cache_tail(plan, merge, filled);
    param
}

/// A literal, boxed.
fn emit_const(plan: &mut Plan, c: &Const) -> (r: usize)
    ensures
        (final(plan)@, r) == emission::boxed_const(old(plan)@, *c),
{
    match c {
        Const::Nil => call_bridge(plan, RtFn::ConstNil, Vec::new()),
        Const::Bool(b) => call_bridge(
            plan,
            if *b {
                RtFn::ConstTrue
            } else {
                RtFn::ConstFalse
            },
            Vec::new(),
        ),
        Const::Long(n) => {
            let func: usize = plan.emit(Op::ImportRt(RtFn::ConstLong));
            let arg: usize = iconst_long(plan, *n);
            plan.emit(Op::Call { func, args: list1(arg) })
        },
        Const::Double(bits) => {
            let func: usize = plan.emit(Op::ImportRt(RtFn::ConstDouble));
            let arg: usize = plan.emit(Op::F64const(*bits));
            plan.emit(Op::Call { func, args: list1(arg) })
        },
        Const::Char(ch) => {
            let func: usize = plan.emit(Op::ImportRt(RtFn::ConstChar));
            let arg: usize = plan.emit(Op::Iconst { ty: ClifTy::I32, value: (*ch as u32) as i64 });
            plan.emit(Op::Call { func, args: list1(arg) })
        },
        Const::Str(t) => emit_string_const(plan, RtFn::ConstString, t.as_str()),
        Const::Keyword(t) => emit_keyword_ic(plan, t.as_str()),
        Const::Symbol(t) => emit_string_const(plan, RtFn::ConstSymbol, t.as_str()),
    }
}

/// The addresses and lengths of a namespace and a name.
fn emit_qualified(plan: &mut Plan, ns: &str, name: &str) -> (r: Vec<usize>)
    ensures
        (final(plan)@, r@) == emission::qualified_ptr(old(plan)@, ns@, name@),
{
    let ns_data: usize = plan.emit(Op::TextData(ns.to_owned()));
    let name_data: usize = plan.emit(Op::TextData(name.to_owned()));
    let ns_ptr: usize = plan.emit(Op::DataAddr(ns_data));
    let ns_len: usize = iconst_long(plan, text_len(ns));
    let name_ptr: usize = plan.emit(Op::DataAddr(name_data));
    let name_len: usize = iconst_long(plan, text_len(name));
    list4(ns_ptr, ns_len, name_ptr, name_len)
}

/// A pinned global, through an inline cache of this site.
fn emit_load_global_versioned_ic(plan: &mut Plan, ns: &str, name: &str) -> (r: usize)
    ensures
        (final(plan)@, r) == emission::versioned_ic(old(plan)@, ns@, name@),
{
    let (slot, merge, param) = emit_cache_head(plan);
    let (ns_ptr, ns_len) = emit_text(plan, ns);
    let (name_ptr, name_len) = emit_text(plan, name);
    let mut args = list4(ns_ptr, ns_len, name_ptr, name_len);
    args.push(slot);
    assert(args@ =~= seq![ns_ptr, ns_len, name_ptr, name_len, slot]);
    let filled: usize = call_bridge(plan, RtFn::LoadGlobalVersionedIc, args);
    emit_cache_tail(plan, merge, filled);
    param
}

fn emit_load_var(plan: &mut Plan, ns: &str, name: &str) -> (r: usize)
    ensures
        (final(plan)@, r) == emission::load_var(old(plan)@, ns@, name@),
{
    let args = emit_qualified(plan, ns, name);
    call_bridge(plan, RtFn::LoadVar, args)
}

fn emit_safepoint(plan: &mut Plan)
    ensures
        final(plan)@ == emission::call_rt_void(old(plan)@, RtFn::Safepoint, Seq::empty()),
{
    call_bridge_void(plan, RtFn::Safepoint, Vec::new());
}

impl<'a> FunctionTranslator<'a> {
    fn emit_def_var(&self, plan: &mut Plan, ns: &str, name: &str, val: VarId) -> (r: usize)
        ensures
            (final(plan)@, r) == emission::def_var(self.env(), old(plan)@, ns@, name@, val),
    {
        let mut args = emit_qualified(plan, ns, name);
        let x: usize = self.use_var_boxed(plan, val);
        args.push(x);
        call_bridge(plan, RtFn::DefVar, args)
    }

    /// Spills values, boxed, to the stack, and yields the address.
    fn spill(&self, plan: &mut Plan, vs: &Vec<VarId>) -> (r: usize)
        ensures
            (final(plan)@, r) == emission::spill(self.env(), old(plan)@, vs@),
    {
        let n: usize = vs.len();
        let slot: usize = plan.emit(Op::StackSlot { cell: Cell::Word, count: n });
        let ghost start = plan@;
        let mut i: usize = 0;
        while i < n
            invariant
                i <= n,
                n == vs@.len(),
                emission::store_all(self.env(), start, vs@, slot, 0) == emission::store_all(self.env(), plan@, vs@, slot, i as int),
            decreases n - i,
        {
            let value: usize = self.use_var_boxed(plan, vs[i]);
            plan.emit(Op::StackStore { value, slot, cell: Cell::Word, index: i });
            i += 1;
        }
        plan.emit(Op::StackAddr(slot))
    }

    /// Spills values with their count.
    fn spill_counted(&self, plan: &mut Plan, vs: &Vec<VarId>, count: i64) -> (r: (usize, usize))
        ensures
            (final(plan)@, r.0, r.1) == emission::spill_counted(self.env(), old(plan)@, vs@, count),
    {
        if vs.len() == 0 {
            let null: usize = null_pointer(plan);
            let zero: usize = iconst_long(plan, 0);
            (null, zero)
        } else {
            let addr: usize = self.spill(plan, vs);
            let n: usize = iconst_long(plan, count);
            (addr, n)
        }
    }

    fn emit_alloc_collection(&self, plan: &mut Plan, f: RtFn, elems: &Vec<VarId>) -> (r: usize)
        ensures
            (final(plan)@, r) == emission::alloc_collection(self.env(), old(plan)@, f, elems@),
    {
        let n: usize = elems.len();
        if n == 0 {
            let func: usize = plan.emit(Op::ImportRt(f));
            let null: usize = null_pointer(plan);
            let zero: usize = iconst_long(plan, 0);
            plan.emit(Op::Call { func, args: list2(null, zero) })
        } else {
            let addr: usize = self.spill(plan, elems);
            let count: usize = iconst_long(plan, n as i64);
            let func: usize = plan.emit(Op::ImportRt(f));
            if f == RtFn::AllocMap {
                let pairs: usize = iconst_long(plan, (n / 2) as i64);
                plan.emit(Op::Call { func, args: list2(addr, pairs) })
            } else {
                plan.emit(Op::Call { func, args: list2(addr, count) })
            }
        }
    }

    fn emit_region_alloc_collection(&self, plan: &mut Plan, f: RtFn, region: usize, elems: &Vec<VarId>) -> (r: usize)
        ensures
            (final(plan)@, r) == emission::region_alloc_collection(self.env(), old(plan)@, f, region, elems@),
    {
        let n: usize = elems.len();
        if n == 0 {
            let func: usize = plan.emit(Op::ImportRt(f));
            let null: usize = null_pointer(plan);
            let zero: usize = iconst_long(plan, 0);
            plan.emit(Op::Call { func, args: list3(region, null, zero) })
        } else {
            let addr: usize = self.spill(plan, elems);
            let func: usize = plan.emit(Op::ImportRt(f));
            let count: usize = iconst_long(
                plan,
                if f == RtFn::RegionAllocMap {
                    (n / 2) as i64
                } else {
                    n as i64
                },
            );
            plan.emit(Op::Call { func, args: list3(region, addr, count) })
        }
    }

    fn emit_region_alloc(&self, plan: &mut Plan, region: VarId, kind: RegionAllocKind, operands: &Vec<VarId>) -> (r: usize)
        ensures
            (final(plan)@, r) == emission::region_alloc(self.env(), old(plan)@, region, kind, operands@),
    {
        let handle: usize = self.use_var(plan, region);
        if kind == RegionAllocKind::Cons {
            if operands.len() == 2 {
                let h: usize = self.use_var_boxed(plan, operands[0]);
                let t: usize = self.use_var_boxed(plan, operands[1]);
                call_bridge(plan, RtFn::RegionAllocCons, list3(handle, h, t))
            } else {
                call_bridge(plan, RtFn::ConstNil, Vec::new())
            }
        } else {
            self.emit_region_alloc_collection(plan, region_target(kind), handle, operands)
        }
    }

    /// An arithmetic operation or comparison on raw values.
    fn emit_unboxed_known(&self, plan: &mut Plan, dst_repr: Repr, kf: KnownFn, a: VarId, b: VarId) -> (r: Result<usize, CodegenError>)
        ensures
            agrees(r, final(plan)@, emission::unboxed_known(self.env(), old(plan)@, dst_repr, kf, a, b)),
    {
        let arith = kf == KnownFn::Add || kf == KnownFn::Sub || kf == KnownFn::Mul;
        let ordered = kf == KnownFn::Lt || kf == KnownFn::Gt || kf == KnownFn::Lte || kf == KnownFn::Gte;
        if arith && dst_repr == Repr::Long {
            let x: usize = self.use_var(plan, a);
            let y: usize = self.use_var(plan, b);
            Ok(emit_checked(plan, kf, x, y))
        } else if (arith || kf == KnownFn::Div) && dst_repr == Repr::Double {
            let x: usize = match self.use_var_f64(plan, a) {
                Ok(x) => x,
                Err(e) => return Err(e),
            };
            let y: usize = match self.use_var_f64(plan, b) {
                Ok(y) => y,
                Err(e) => return Err(e),
            };
            let op = match kf {
                KnownFn::Add => Arith::Fadd,
                KnownFn::Sub => Arith::Fsub,
                KnownFn::Mul => Arith::Fmul,
                _ => Arith::Fdiv,
            };
            Ok(plan.emit(Op::Binary { op, a: x, b: y }))
        } else if ordered && dst_repr == Repr::Bool {
            if self.repr_of(a) == Repr::Long && self.repr_of(b) == Repr::Long {
                let x: usize = self.use_var(plan, a);
                let y: usize = self.use_var(plan, b);
                let cond = match kf {
                    KnownFn::Lt => IntCond::SignedLessThan,
                    KnownFn::Gt => IntCond::SignedGreaterThan,
                    KnownFn::Lte => IntCond::SignedLessThanOrEqual,
                    _ => IntCond::SignedGreaterThanOrEqual,
                };
                Ok(plan.emit(Op::IntTest { cond, a: x, b: y }))
            } else {
                let x: usize = match self.use_var_f64(plan, a) {
                    Ok(x) => x,
                    Err(e) => return Err(e),
                };
                let y: usize = match self.use_var_f64(plan, b) {
                    Ok(y) => y,
                    Err(e) => return Err(e),
                };
                let cond = match kf {
                    KnownFn::Lt => FloatCond::LessThan,
                    KnownFn::Gt => FloatCond::GreaterThan,
                    KnownFn::Lte => FloatCond::LessThanOrEqual,
                    _ => FloatCond::GreaterThanOrEqual,
                };
                Ok(plan.emit(Op::FloatTest { cond, a: x, b: y }))
            }
        } else if kf == KnownFn::Eq && dst_repr == Repr::Bool {
            let x: usize = self.use_var(plan, a);
            let y: usize = self.use_var(plan, b);
            Ok(plan.emit(Op::IntTest { cond: IntCond::Equal, a: x, b: y }))
        } else {
            Err(
                CodegenError::Codegen(
                    "unboxed known-call combination not supported: (".to_owned().concat(known_label(kf)).concat(
                        ", ",
                    ).concat(repr_label(dst_repr)).concat(")"),
                ),
            )
        }
    }

    fn emit_atom_swap(&self, plan: &mut Plan, args: &Vec<VarId>) -> (r: usize)
        requires
            args@.len() >= 2,
        ensures
            (final(plan)@, r) == emission::atom_swap(self.env(), old(plan)@, args@),
    {
        let atom: usize = self.use_var_boxed(plan, args[0]);
        let f: usize = self.use_var_boxed(plan, args[1]);
        let extra = vars_between(args, 2, args.len());
        let n: usize = extra.len();
        let (ptr, count) = self.spill_counted(plan, &extra, n as i64);
        call_bridge(plan, RtFn::AtomSwap, list4(atom, f, ptr, count))
    }

    fn emit_with_bindings(&self, plan: &mut Plan, args: &Vec<VarId>) -> (r: usize)
        requires
            args@.len() >= 1,
        ensures
            (final(plan)@, r) == emission::with_bindings(self.env(), old(plan)@, args@),
    {
        let last: usize = args.len() - 1;
        let bindings = vars_between(args, 0, last);
        assert(bindings@ == args@.drop_last());
        let npairs: usize = bindings.len() / 2;
        let body: usize = self.use_var_boxed(plan, args[last]);
        let spilled = if npairs > 0 {
            bindings
        } else {
            Vec::new()
        };
        let (ptr, count) = self.spill_counted(plan, &spilled, npairs as i64);
        call_bridge(plan, RtFn::WithBindings, list3(ptr, count, body))
    }

    /// A call of a known function.
    fn emit_known_call(&self, plan: &mut Plan, dst: VarId, kf: KnownFn, args: &Vec<VarId>) -> (r: Result<usize, CodegenError>)
        requires
            emission::known_ok(kf, args@.len()),
        ensures
            agrees(r, final(plan)@, emission::known_call(self.env(), old(plan)@, dst, kf, args@)),
    {
        let dst_repr = self.repr_of(dst);
        if dst_repr != Repr::Boxed && args.len() == 2 {
            return self.emit_unboxed_known(plan, dst_repr, kf, args[0], args[1]);
        }
        if kf == KnownFn::AtomSwap {
            return Ok(self.emit_atom_swap(plan, args));
        }
        if kf == KnownFn::WithBindings {
            return Ok(self.emit_with_bindings(plan, args));
        }
        match variadic_target(kf, args.len()) {
            Some(f) => Ok(self.emit_alloc_collection(plan, f, args)),
            None => match fixed_target(kf) {
                Some(f) => {
                    let xs = self.use_all_boxed(plan, args);
                    Ok(call_bridge(plan, f, xs))
                },
                None => Ok(call_bridge(plan, RtFn::ConstNil, Vec::new())),
            },
        }
    }

    /// A call of a declared function, with `extra` behind its arguments.
    fn emit_direct_call(&self, plan: &mut Plan, what: &str, name: &str, args: &Vec<VarId>, extra: Vec<usize>) -> (r: Result<usize, CodegenError>)
        ensures
            agrees(r, final(plan)@, emission::direct_call(self.env(), old(plan)@, what@, name@, args@, extra@)),
    {
        if self.is_declared(name) {
            let func: usize = plan.emit(Op::ImportUser(name.to_owned()));
            let mut xs = self.use_all_boxed(plan, args);
            let mut extra = extra;
            xs.append(&mut extra);
            Ok(plan.emit(Op::Call { func, args: xs }))
        } else {
            Err(CodegenError::Codegen(what.to_owned().concat(": unknown function ").concat(name)))
        }
    }

    /// A call of a value.
    fn emit_unknown_call(&self, plan: &mut Plan, callee: VarId, args: &Vec<VarId>) -> (r: usize)
        ensures
            (final(plan)@, r) == emission::unknown_call(self.env(), old(plan)@, callee, args@),
    {
        let f: usize = self.use_var_boxed(plan, callee);
        let n: usize = args.len();
        if n == 0 {
            let null: usize = null_pointer(plan);
            let zero: usize = iconst_long(plan, 0);
            call_bridge(plan, RtFn::Call, list3(f, null, zero))
        } else {
            let addr: usize = self.spill(plan, args);
            let count: usize = iconst_long(plan, n as i64);
            let data: usize = plan.emit(Op::ZeroData);
            let slot: usize = plan.emit(Op::DataAddr(data));
            call_bridge(plan, RtFn::CallIc, list4(f, addr, count, slot))
        }
    }

    /// The address of a declared function.
    fn emit_func_ptr(&self, plan: &mut Plan, name: &str) -> (r: Result<usize, CodegenError>)
        ensures
            agrees(r, final(plan)@, emission::func_ptr(self.env(), old(plan)@, name@)),
    {
        if self.is_declared(name) {
            let func: usize = plan.emit(Op::ImportUser(name.to_owned()));
            Ok(plan.emit(Op::FuncAddr(func)))
        } else {
            Err(CodegenError::Codegen("AllocClosure: undeclared subfunction ".to_owned().concat(name)))
        }
    }

    fn store_funcs(&self, plan: &mut Plan, names: &Vec<String>, slot: usize) -> (r: Result<(), CodegenError>)
        ensures
            agrees_unit(r, final(plan)@, emission::store_funcs(self.env(), old(plan)@, names@, slot, 0)),
    {
        let ghost start = plan@;
        let mut i: usize = 0;
        while i < names.len()
            invariant
                i <= names@.len(),
                start == old(plan)@,
                emission::store_funcs(self.env(), start, names@, slot, 0) == emission::store_funcs(self.env(), plan@, names@, slot, i as int),
            decreases names@.len() - i,
        {
            let ghost before = plan@;
            match self.emit_func_ptr(plan, names[i].as_str()) {
                Ok(value) => {
                    plan.emit(Op::StackStore { value, slot, cell: Cell::Word, index: i });
                },
                Err(e) => {
                    assert(emission::store_funcs(self.env(), before, names@, slot, i as int) == Err::<PlanView, ErrorView>(e@));
                    return Err(e);
                },
            }
            i += 1;
        }
        Ok(())
    }

    /// A closure over `captures`.
    fn emit_closure(&self, plan: &mut Plan, t: &ClosureTemplate, captures: &Vec<VarId>) -> (r: Result<usize, CodegenError>)
        requires
            emission::template_ok(*t),
        ensures
            agrees(r, final(plan)@, emission::closure(self.env(), old(plan)@, *t, captures@)),
    {
        let n: usize = t.arity_fn_names.len();
        if n == 0 {
            return Ok(call_bridge(plan, RtFn::ConstNil, Vec::new()));
        }
        let label: &str = match &t.name {
            Some(name) => name.as_str(),
            None => t.arity_fn_names[0].as_str(),
        };
        let (name, name_len) = emit_text(plan, label);
        let ncaptures: usize = captures.len();
        let (caps, ncaps) = self.spill_counted(plan, captures, ncaptures as i64);
        if n == 1 {
            match self.emit_func_ptr(plan, t.arity_fn_names[0].as_str()) {
                Err(e) => Err(e),
                Ok(func) => {
                    let count: usize = iconst_long(plan, t.param_counts[0] as i64);
                    let f = if t.is_variadic[0] {
                        RtFn::MakeFnVariadic
                    } else {
                        RtFn::MakeFn
                    };
                    let mut args = list4(name, name_len, func, count);
                    args.push(caps);
                    args.push(ncaps);
                    assert(args@ =~= seq![name, name_len, func, count, caps, ncaps]);
                    Ok(call_bridge(plan, f, args))
                },
            }
        } else {
            let func_slot: usize = plan.emit(Op::StackSlot { cell: Cell::Word, count: n });
            match self.store_funcs(plan, &t.arity_fn_names, func_slot) {
                Err(e) => Err(e),
                Ok(_) => {
                    let funcs: usize = plan.emit(Op::StackAddr(func_slot));
                    let count_slot: usize = plan.emit(Op::StackSlot { cell: Cell::Word, count: n });
                    store_param_counts(plan, &t.param_counts, count_slot);
                    let counts: usize = plan.emit(Op::StackAddr(count_slot));
                    let flag_slot: usize = plan.emit(Op::StackSlot { cell: Cell::Byte, count: n });
                    store_variadic_flags(plan, &t.is_variadic, flag_slot);
                    let flags: usize = plan.emit(Op::StackAddr(flag_slot));
                    let arities: usize = iconst_long(plan, n as i64);
                    let mut args = list4(name, name_len, funcs, counts);
                    args.push(flags);
                    args.push(arities);
                    args.push(caps);
                    args.push(ncaps);
                    assert(args@ =~= seq![name, name_len, funcs, counts, flags, arities, caps, ncaps]);
                    Ok(call_bridge(plan, RtFn::MakeFnMulti, args))
                },
            }
        }
    }
}

fn store_param_counts(plan: &mut Plan, counts: &Vec<usize>, slot: usize)
    ensures
        final(plan)@ == emission::store_counts(old(plan)@, counts@, slot, 0),
{
    let ghost start = plan@;
    let mut i: usize = 0;
    while i < counts.len()
        invariant
            i <= counts@.len(),
            emission::store_counts(start, counts@, slot, 0) == emission::store_counts(plan@, counts@, slot, i as int),
        decreases counts@.len() - i,
    {
        let value: usize = iconst_long(plan, counts[i] as i64);
        plan.emit(Op::StackStore { value, slot, cell: Cell::Word, index: i });
        i += 1;
    }
}

fn store_variadic_flags(plan: &mut Plan, flags: &Vec<bool>, slot: usize)
    ensures
        final(plan)@ == emission::store_flags(old(plan)@, flags@, slot, 0),
{
    let ghost start = plan@;
    let mut i: usize = 0;
    while i < flags.len()
        invariant
            i <= flags@.len(),
            emission::store_flags(start, flags@, slot, 0) == emission::store_flags(plan@, flags@, slot, i as int),
        decreases flags@.len() - i,
    {
        let value: usize = plan.emit(
            Op::Iconst {
                ty: ClifTy::I8,
                value: if flags[i] {
                    1
                } else {
                    0
                },
            },
        );
        plan.emit(Op::StackStore { value, slot, cell: Cell::Byte, index: i });
        i += 1;
    }
}

/// The values from `from` up to `to`.
fn vars_between(vs: &Vec<VarId>, from: usize, to: usize) -> (r: Vec<VarId>)
    requires
        from <= to <= vs@.len(),
    ensures
        r@ == vs@.subrange(from as int, to as int),
{
    let mut out: Vec<VarId> = Vec::new();
    let mut i: usize = from;
    while i < to
        invariant
            from <= i <= to <= vs@.len(),
            out@ == vs@.subrange(from as int, i as int),
        decreases to - i,
    {
        out.push(vs[i]);
        i += 1;
        assert(vs@.subrange(from as int, i as int) == vs@.subrange(from as int, i - 1).push(vs@[i - 1]));
    }
    out
}

/// Keys and values of `pairs`, in turn.
fn flatten(pairs: &Vec<(VarId, VarId)>) -> (r: Vec<VarId>)
    ensures
        r@ == emission::flat(pairs@),
{
    let mut out: Vec<VarId> = Vec::new();
    let mut i: usize = 0;
    while i < pairs.len()
        invariant
            i <= pairs@.len(),
            out@.len() == 2 * i,
            forall|k: int| 0 <= k < out@.len() ==> out@[k] == emission::flat(pairs@)[k],
        decreases pairs@.len() - i,
    {
        out.push(pairs[i].0);
        out.push(pairs[i].1);
        i += 1;
    }
    assert(out@ =~= emission::flat(pairs@));
    out
}

impl<'a> FunctionTranslator<'a> {
    /// The value that an instruction computes.
    fn translate_value(&self, plan: &mut Plan, inst: &Inst) -> (r: Result<usize, CodegenError>)
        requires
            emission::inst_ok(*inst),
        ensures
            agrees(r, final(plan)@, emission::inst_value(self.env(), old(plan)@, *inst)),
    {
        match inst {
            Inst::Const(dst, c) => {
                let x: usize = match (self.repr_of(*dst), c) {
                    (Repr::Long, Const::Long(n)) => iconst_long(plan, *n),
                    (Repr::Double, Const::Double(bits)) => plan.emit(Op::F64const(*bits)),
                    (Repr::Bool, Const::Bool(b)) => plan.emit(
                        Op::Iconst {
                            ty: ClifTy::I8,
                            value: if *b {
                                1
                            } else {
                                0
                            },
                        },
                    ),
                    _ => emit_const(plan, c),
                };
                Ok(x)
            },
            Inst::LoadLocal(_, _) => Ok(call_bridge(plan, RtFn::ConstNil, Vec::new())),
            Inst::LoadGlobal(_, ns, name) => Ok(self.emit_load_global(plan, ns.as_str(), name.as_str())),
            Inst::LoadVar(_, ns, name) => Ok(emit_load_var(plan, ns.as_str(), name.as_str())),
            Inst::AllocVector(_, elems) => Ok(self.emit_alloc_collection(plan, RtFn::AllocVector, elems)),
            Inst::AllocMap(_, pairs) => Ok(
                self.emit_alloc_collection(plan, RtFn::AllocMap, &flatten(pairs)),
            ),
            Inst::AllocSet(_, elems) => Ok(self.emit_alloc_collection(plan, RtFn::AllocSet, elems)),
            Inst::AllocList(_, elems) => Ok(self.emit_alloc_collection(plan, RtFn::AllocList, elems)),
            Inst::AllocCons(_, head, tail) => {
                let h: usize = self.use_var_boxed(plan, *head);
                let t: usize = self.use_var_boxed(plan, *tail);
                Ok(call_bridge(plan, RtFn::AllocCons, list2(h, t)))
            },
            Inst::AllocClosure(_, t, captures) => self.emit_closure(plan, t, captures),
            Inst::CallKnown(dst, kf, args) => self.emit_known_call(plan, *dst, *kf, args),
            Inst::Call(_, callee, args) => Ok(self.emit_unknown_call(plan, *callee, args)),
            Inst::CallDirect(_, name, args) => self.emit_direct_call(
                plan,
                "CallDirect",
                name.as_str(),
                args,
                Vec::new(),
            ),
            Inst::Deref(_, src) => {
                let x: usize = self.use_var_boxed(plan, *src);
                Ok(call_bridge(plan, RtFn::Deref, list1(x)))
            },
            Inst::DefVar(_, ns, name, val) => Ok(
                self.emit_def_var(plan, ns.as_str(), name.as_str(), *val),
            ),
            Inst::RegionStart(_) => Ok(call_bridge(plan, RtFn::RegionStart, Vec::new())),
            Inst::RegionAlloc(_, region, kind, operands) => Ok(
                self.emit_region_alloc(plan, *region, *kind, operands),
            ),
            Inst::RegionParam(_) => match self.region_param {
                Some(p) => Ok(p),
                None => Err(
                    CodegenError::Codegen(
                        "RegionParam in a function compiled without a region parameter".to_owned(),
                    ),
                ),
            },
            Inst::CallWithRegion(_, name, args, region) => {
                let handle: usize = self.use_var(plan, *region);
                self.emit_direct_call(plan, "CallWithRegion", name.as_str(), args, list1(handle))
            },
            _ => Err(
                CodegenError::UnsupportedInst(
                    "async instructions (Await/Spawn/ChanTake/ChanPut) require JIT compilation".to_owned(),
                ),
            ),
        }
    }

    /// Translates one instruction.
    fn translate_inst(&self, plan: &mut Plan, inst: &Inst) -> (r: Result<(), CodegenError>)
        requires
            emission::inst_ok(*inst),
        ensures
            agrees_unit(r, final(plan)@, emission::inst_ops(self.env(), old(plan)@, *inst)),
    {
        match inst {
            Inst::SetBang(var, val) => {
                let a: usize = self.use_var_boxed(plan, *var);
                let b: usize = self.use_var_boxed(plan, *val);
                call_bridge_void(plan, RtFn::SetBang, list2(a, b));
                Ok(())
            },
            Inst::Throw(val) => {
                let a: usize = self.use_var_boxed(plan, *val);
                call_bridge_void(plan, RtFn::Throw, list1(a));
                Ok(())
            },
            Inst::RegionEnd(region) => {
                let handle: usize = self.use_var(plan, *region);
                call_bridge_void(plan, RtFn::RegionEnd, list1(handle));
                Ok(())
            },
            Inst::Phi(_, _) => Ok(()),
            Inst::Recur(_) => Ok(()),
            Inst::SourceLoc(_) => Ok(()),
            _ => match self.translate_value(plan, inst) {
                Err(e) => Err(e),
                Ok(x) => {
                    if let Some(dst) = inst.dst() {
                        self.define(plan, dst, x);
                    }
                    Ok(())
                },
            },
        }
    }

    /// Reads what block `to` takes on the edge from `from`.
    fn collect_phi_args(&self, plan: &mut Plan, blocks: &Vec<Block>, to: BlockId, from: BlockId) -> (r: Result<Vec<usize>, CodegenError>)
        ensures
            agrees_all(r, final(plan)@, emission::edge_args(self.env(), old(plan)@, blocks@, to, from)),
    {
        let mut out: Vec<usize> = Vec::new();
        match find_block(blocks, to) {
            None => {},
            Some(t) => {
                let phis = &blocks[t].phis;
                let ghost start = plan@;
                let mut i: usize = 0;
                while i < phis.len()
                    invariant
                        i <= phis@.len(),
                        start == old(plan)@,
                        t < blocks@.len(),
                        t == ir::first_block(blocks@, to, 0),
                        phis@ == blocks@[t as int].phis@,
                        emission::phi_args(self.env(), start, phis@, from, 0, Seq::empty()) == emission::phi_args(
                            self.env(),
                            plan@,
                            phis@,
                            from,
                            i as int,
                            out@,
                        ),
                    decreases phis@.len() - i,
                {
                    let ghost before = plan@;
                    if let Inst::Phi(dst, entries) = &phis[i] {
                        if let Some(k) = find_entry(entries, from) {
                            match self.coerce_to(plan, entries[k].1, self.repr_of(*dst)) {
                                Ok(x) => {
                                    out.push(x);
                                },
                                Err(e) => {
                                    assert(emission::phi_args(self.env(), before, phis@, from, i as int, out@) == Err::<(PlanView, Seq<usize>), ErrorView>(e@));
                                    return Err(e);
                                },
                            }
                        }
                    }
                    i += 1;
                }
            },
        }
        Ok(out)
    }

    /// Reads the arguments of a jump back to a block with the given phis.
    fn collect_recur_args(&self, plan: &mut Plan, args: &Vec<VarId>, phis: &Vec<Inst>) -> (r: Result<Vec<usize>, CodegenError>)
        ensures
            agrees_all(r, final(plan)@, emission::recur_args(self.env(), old(plan)@, args@, phis@, 0, Seq::empty())),
    {
        let mut out: Vec<usize> = Vec::new();
        let ghost start = plan@;
        let mut i: usize = 0;
        while i < args.len() && i < phis.len()
            invariant
                i <= args@.len(),
                i <= phis@.len(),
                start == old(plan)@,
                emission::recur_args(self.env(), start, args@, phis@, 0, Seq::empty()) == emission::recur_args(
                    self.env(),
                    plan@,
                    args@,
                    phis@,
                    i as int,
                    out@,
                ),
            decreases args@.len() - i,
        {
            let ghost before = plan@;
            let target = match &phis[i] {
                Inst::Phi(dst, _) => self.repr_of(*dst),
                _ => Repr::Boxed,
            };
            match self.coerce_to(plan, args[i], target) {
                Ok(x) => {
                    out.push(x);
                },
                Err(e) => {
                    assert(emission::recur_args(self.env(), before, args@, phis@, i as int, out@) == Err::<(PlanView, Seq<usize>), ErrorView>(e@));
                    return Err(e);
                },
            }
            i += 1;
        }
        Ok(out)
    }

    fn block_of(&self, id: BlockId) -> (r: usize)
        requires
            self.env().blocks.dom().contains(id.0),
        ensures
            r == self.env().blocks[id.0],
    {
        match self.block_map.get(&id.0) {
            Some(b) => *b,
            None => 0,
        }
    }

    /// Translates the end of a block.
    fn translate_terminator(&self, plan: &mut Plan, term: &Terminator, from: BlockId, blocks: &Vec<Block>) -> (r: Result<(), CodegenError>)
        requires
            emission::term_ok(self.env().blocks, *term),
        ensures
            agrees_unit(r, final(plan)@, emission::term_ops(self.env(), old(plan)@, *term, from, blocks@)),
    {
        match term {
            Terminator::Return(v) => {
                let x: usize = self.use_var_boxed(plan, *v);
                plan.emit(Op::Return(x));
                Ok(())
            },
            Terminator::Jump(target) => {
                let block: usize = self.block_of(*target);
                match self.collect_phi_args(plan, blocks, *target, from) {
                    Err(e) => Err(e),
                    Ok(args) => {
                        plan.emit(Op::Jump { block, args });
                        Ok(())
                    },
                }
            },
            Terminator::Branch { cond, then_block, else_block } => {
                let then_b: usize = self.block_of(*then_block);
                let else_b: usize = self.block_of(*else_block);
                let then_args = match self.collect_phi_args(plan, blocks, *then_block, from) {
                    Err(e) => return Err(e),
                    Ok(args) => args,
                };
                let else_args = match self.collect_phi_args(plan, blocks, *else_block, from) {
                    Err(e) => return Err(e),
                    Ok(args) => args,
                };
                match self.repr_of(*cond) {
                    Repr::Bool => {
                        let x: usize = self.use_var(plan, *cond);
                        plan.emit(Op::Brif { cond: x, then_block: then_b, then_args, else_block: else_b, else_args });
                    },
                    Repr::Boxed => {
                        let x: usize = self.use_var(plan, *cond);
                        let t: usize = call_bridge(plan, RtFn::Truthiness, list1(x));
                        plan.emit(Op::Brif { cond: t, then_block: then_b, then_args, else_block: else_b, else_args });
                    },
                    _ => {
                        plan.emit(Op::Jump { block: then_b, args: then_args });
                    },
                }
                Ok(())
            },
            Terminator::RecurJump { target, args } => {
                emit_safepoint(plan);
                let block: usize = self.block_of(*target);
                let xs = match find_block(blocks, *target) {
                    Some(t) => match self.collect_recur_args(plan, args, &blocks[t].phis) {
                        Err(e) => return Err(e),
                        Ok(xs) => xs,
                    },
                    None => self.use_all_boxed(plan, args),
                };
                plan.emit(Op::Jump { block, args: xs });
                Ok(())
            },
            Terminator::Unreachable => {
                let nil: usize = call_bridge(plan, RtFn::ConstNil, Vec::new());
                plan.emit(Op::Return(nil));
                Ok(())
            },
        }
    }

    /// Translates a block; `switch` tells whether it has to be switched to.
    fn translate_block(&self, plan: &mut Plan, b: &Block, switch: bool, blocks: &Vec<Block>) -> (r: Result<(), CodegenError>)
        requires
            emission::block_ok(self.env().blocks, *b),
        ensures
            agrees_unit(r, final(plan)@, emission::block_ops(self.env(), old(plan)@, *b, switch, blocks@)),
    {
        let block: usize = self.block_of(b.id);
        if switch {
            plan.emit(Op::SwitchTo(block));
        }
        let ghost s1 = plan@;
        let mut i: usize = 0;
        while i < b.phis.len()
            invariant
                i <= b.phis@.len(),
                emission::phi_params(self.env(), s1, block, b.phis@, 0) == emission::phi_params(self.env(), plan@, block, b.phis@, i as int),
            decreases b.phis@.len() - i,
        {
            if let Inst::Phi(dst, _) = &b.phis[i] {
                let ty = machine_ty(self.repr_of(*dst));
                self.ensure_var(plan, *dst);
                let p: usize = plan.emit(Op::AppendParam { block, ty });
                plan.emit(Op::DefVar { var: *dst, value: p });
            }
            i += 1;
        }
        let ghost s2 = plan@;
        let mut j: usize = 0;
        while j < b.insts.len()
            invariant
                j <= b.insts@.len(),
                emission::block_ok(self.env().blocks, *b),
                emission::insts_ops(self.env(), s2, b.insts@, 0) == emission::insts_ops(self.env(), plan@, b.insts@, j as int),
                s2 == emission::phi_params(self.env(), s1, block, b.phis@, 0),
                s1 == (if switch { clif::emit(old(plan)@, OpView::SwitchTo(block)) } else { old(plan)@ }),
                block == self.env().blocks[b.id.0],
            decreases b.insts@.len() - j,
        {
            let ghost before = plan@;
            match self.translate_inst(plan, &b.insts[j]) {
                Ok(_) => {},
                Err(e) => {
                    assert(emission::insts_ops(self.env(), before, b.insts@, j as int) == Err::<PlanView, ErrorView>(e@));
                    return Err(e);
                },
            }
            j += 1;
        }
        self.translate_terminator(plan, &b.terminator, b.id, blocks)
    }

    /// Translates all blocks.
    fn translate_blocks(&self, plan: &mut Plan, func: &IrFunction, specialized: bool) -> (r: Result<(), CodegenError>)
        requires
            emission::function_ok(*func),
            forall|k: int| 0 <= k < func.blocks@.len() ==> self.env().blocks.dom().contains((#[trigger] func.blocks@[k]).id.0),
        ensures
            agrees_unit(r, final(plan)@, emission::blocks_ops(self.env(), old(plan)@, func.blocks@, specialized, 0)),
    {
        let mut j: usize = 0;
        while j < func.blocks.len()
            invariant
                j <= func.blocks@.len(),
                emission::function_ok(*func),
                forall|k: int| 0 <= k < func.blocks@.len() ==> self.env().blocks.dom().contains((#[trigger] func.blocks@[k]).id.0),
                emission::blocks_ops(self.env(), old(plan)@, func.blocks@, specialized, 0) == emission::blocks_ops(self.env(), plan@, func.blocks@, specialized, j as int),
            decreases func.blocks@.len() - j,
        {
            proof {
                targets_are_mapped(*func, self.env().blocks, j as int);
            }
            let ghost before = plan@;
            match self.translate_block(plan, &func.blocks[j], j > 0 || specialized, &func.blocks) {
                Ok(_) => {},
                Err(e) => {
                    assert(emission::blocks_ops(self.env(), before, func.blocks@, specialized, j as int) == Err::<PlanView, ErrorView>(e@));
                    return Err(e);
                },
            }
            j += 1;
        }
        Ok(())
    }

    /// Guards and unboxes the parameters; a failing guard goes to `deopt`.
    fn guard_params(&self, plan: &mut Plan, prologue: usize, deopt: usize, params: &Vec<(String, VarId)>, specs: &[Repr])
        ensures
            final(plan)@ == emission::guard_params(self.env(), old(plan)@, prologue, deopt, params@, specs@, 0),
    {
        let ghost start = plan@;
        let mut i: usize = 0;
        while i < params.len()
            invariant
                i <= params@.len(),
                emission::guard_params(self.env(), start, prologue, deopt, params@, specs@, 0) == emission::guard_params(
                    self.env(),
                    plan@,
                    prologue,
                    deopt,
                    params@,
                    specs@,
                    i as int,
                ),
            decreases params@.len() - i,
        {
            let v = params[i].1;
            let r = if i < specs.len() {
                specs[i]
            } else {
                Repr::Boxed
            };
            let raw: usize = plan.emit(Op::BlockParam { block: prologue, index: i });
            if r == Repr::Long || r == Repr::Double {
                let imm: i64 = if r == Repr::Long {
                    1
                } else {
                    2
                };
                let tag: usize = call_bridge(plan, RtFn::ValueTag, list1(raw));
                let ok: usize = plan.emit(Op::IntTestImm { cond: IntCond::Equal, a: tag, imm });
                let cont: usize = plan.emit(Op::CreateBlock);
                plan.emit(
                    Op::Brif {
                        cond: ok,
                        then_block: cont,
                        then_args: Vec::new(),
                        else_block: deopt,
                        else_args: Vec::new(),
                    },
                );
                plan.emit(Op::SwitchTo(cont));
                let f = if r == Repr::Long {
                    RtFn::UnboxLong
                } else {
                    RtFn::UnboxDouble
                };
                let x: usize = call_bridge(plan, f, list1(raw));
                self.define(plan, v, x);
            } else {
                self.define(plan, v, raw);
            }
            i += 1;
        }
    }

    fn bind_params(&self, plan: &mut Plan, entry: usize, params: &Vec<(String, VarId)>)
        ensures
            final(plan)@ == emission::bind_params(self.env(), old(plan)@, entry, params@, 0),
    {
        let ghost start = plan@;
        let mut i: usize = 0;
        while i < params.len()
            invariant
                i <= params@.len(),
                emission::bind_params(self.env(), start, entry, params@, 0) == emission::bind_params(self.env(), plan@, entry, params@, i as int),
            decreases params@.len() - i,
        {
            let v = params[i].1;
            self.ensure_var(plan, v);
            let p: usize = plan.emit(Op::BlockParam { block: entry, index: i });
            plan.emit(Op::DefVar { var: v, value: p });
            i += 1;
        }
    }

    /// Translates the way in, and yields the region parameter where there is one.
    fn translate_entry(&self, plan: &mut Plan, func: &IrFunction, specs: &[Repr], specialized: bool, prologue: usize) -> (r: Option<usize>)
        requires
            func.blocks@.len() > 0,
            self.env().blocks.dom().contains(func.blocks@[0].id.0),
            specialized == emission::is_specialized(*func, specs@),
        ensures
            (final(plan)@, r) == emission::entry_ops(self.env(), old(plan)@, *func, specs@, prologue),
    {
        let entry: usize = self.block_of(func.blocks[0].id);
        let first: usize = if specialized {
            prologue
        } else {
            entry
        };
        plan.emit(Op::SwitchTo(first));
        plan.emit(Op::FunctionParams(first));
        if specialized {
            let deopt: usize = plan.emit(Op::CreateBlock);
            self.guard_params(plan, prologue, deopt, &func.params, specs);
            let region = emit_region_param(plan, func, prologue);
            emit_safepoint(plan);
            plan.emit(Op::Jump { block: entry, args: Vec::new() });
            plan.emit(Op::SwitchTo(deopt));
            let sentinel: usize = call_bridge(plan, RtFn::Deopt, Vec::new());
            plan.emit(Op::Return(sentinel));
            region
        } else {
            self.bind_params(plan, entry, &func.params);
            let region = emit_region_param(plan, func, entry);
            emit_safepoint(plan);
            region
        }
    }
}

fn emit_region_param(plan: &mut Plan, func: &IrFunction, entry: usize) -> (r: Option<usize>)
    ensures
        (final(plan)@, r) == emission::region_param(old(plan)@, *func, entry),
{
    if func.takes_region_param() {
        let n: usize = func.params.len();
        Some(plan.emit(Op::BlockParam { block: entry, index: n }))
    } else {
        None
    }
}

/// The first entry for the predecessor `from`.
fn find_entry(entries: &Vec<(BlockId, VarId)>, from: BlockId) -> (r: Option<usize>)
    ensures
        match r {
            Some(k) => k < entries@.len() && k == emission::entry_for(entries@, from, 0),
            None => emission::entry_for(entries@, from, 0) == entries@.len(),
        },
{
    let mut i: usize = 0;
    while i < entries.len()
        invariant
            i <= entries@.len(),
            emission::entry_for(entries@, from, 0) == emission::entry_for(entries@, from, i as int),
        decreases entries@.len() - i,
    {
        if entries[i].0 == from {
            return Some(i);
        }
        i += 1;
    }
    None
}

fn any_specialized(func: &IrFunction, specs: &[Repr]) -> (r: bool)
    ensures
        r == emission::is_specialized(*func, specs@),
{
    let mut i: usize = 0;
    while i < specs.len() && i < func.params.len()
        invariant
            i <= specs@.len(),
            i <= func.params@.len(),
            forall|k: int| 0 <= k < i ==> #[trigger] emission::spec_at(specs@, k) == Repr::Boxed,
        decreases specs@.len() - i,
    {
        if specs[i] != Repr::Boxed {
            assert(emission::spec_at(specs@, i as int) != Repr::Boxed);
            return true;
        }
        i += 1;
    }
    false
}

/// Plans a function: what compiling it asks of the code generator.
pub fn plan_function(func: &IrFunction, reprs: HashMap<u32, Repr>, user_funcs: &Vec<String>, specs: &[Repr]) -> (r: Result<Plan, CodegenError>)
    requires
        emission::function_ok(*func),
    ensures
        match (r, emission::function_plan(*func, reprs@, names_view(user_funcs@), specs@)) {
            (Ok(plan), Ok(want)) => plan@ == want,
            (Err(e), Err(want)) => e@ == want,
            _ => false,
        },
{
    let specialized = any_specialized(func, specs);
    let mut plan = Plan::new();
    assert(plan@ == emission::empty_plan());
    let prologue: usize = if specialized {
        plan.emit(Op::CreateBlock)
    } else {
        0
    };
    let ghost s1 = plan@;
    let mut map: HashMap<u32, usize> = HashMap::new();
    let mut i: usize = 0;
    while i < func.blocks.len()
        invariant
            i <= func.blocks@.len(),
            emission::create_blocks(s1, Map::empty(), func.blocks@, 0) == emission::create_blocks(plan@, map@, func.blocks@, i as int),
            forall|k: int| 0 <= k < i ==> map@.dom().contains((#[trigger] func.blocks@[k]).id.0),
        decreases func.blocks@.len() - i,
    {
        let b: usize = plan.emit(Op::CreateBlock);
        map.insert(func.blocks[i].id.0, b);
        i += 1;
    }
    let mut t = FunctionTranslator { reprs, user_funcs, block_map: map, region_param: None, pins: &func.pins };
    let region = t.translate_entry(&mut plan, func, specs, specialized, prologue);
    t.region_param = region;
    match t.translate_blocks(&mut plan, func, specialized) {
        Err(e) => return Err(e),
        Ok(_) => {},
    }
    plan.emit(Op::SealAll);
    Ok(plan)
}

/// Where every block is mapped, every target of a block is.
proof fn targets_are_mapped(func: IrFunction, map: Map<u32, usize>, j: int)
    requires
        emission::function_ok(func),
        0 <= j < func.blocks@.len(),
        forall|k: int| 0 <= k < func.blocks@.len() ==> map.dom().contains((#[trigger] func.blocks@[k]).id.0),
    ensures
        emission::block_ok(map, func.blocks@[j]),
{
    let b = func.blocks@[j];
    assert(emission::names_blocks(func.blocks@, b.terminator));
    match b.terminator {
        Terminator::Jump(t) => {
            let k = choose|k: int| 0 <= k < func.blocks@.len() && (#[trigger] func.blocks@[k]).id == t;
            assert(map.dom().contains(func.blocks@[k].id.0));
        },
        Terminator::Branch { cond, then_block, else_block } => {
            let k = choose|k: int| 0 <= k < func.blocks@.len() && (#[trigger] func.blocks@[k]).id == then_block;
            assert(map.dom().contains(func.blocks@[k].id.0));
            let k2 = choose|k: int| 0 <= k < func.blocks@.len() && (#[trigger] func.blocks@[k]).id == else_block;
            assert(map.dom().contains(func.blocks@[k2].id.0));
        },
        Terminator::RecurJump { target, args } => {
            let k = choose|k: int| 0 <= k < func.blocks@.len() && (#[trigger] func.blocks@[k]).id == target;
            assert(map.dom().contains(func.blocks@[k].id.0));
        },
        _ => {},
    }
}

} // verus!
