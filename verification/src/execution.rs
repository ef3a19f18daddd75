//! What plans do when they are carried out on a host, and what the functions that they stand for do:
//! a machine for the requests of a plan, and one for blocks and instructions.
use crate::bridge::RtFn;
use crate::clif::{Arith, Cell, FloatCond, IntCond, OpView};
use crate::emission;
use crate::ir::{Block, BlockId, ClosureTemplate, Const, Inst, KnownFn, RegionAllocKind, Repr, Terminator, VarId};
use vstd::prelude::*;

verus! {

/// A host: what its bridge and the functions of the program give for words and a world, with the world
/// then, how it does floats, and where it keeps what plans point to.  The address of a row of cells
/// stands for what is in them.
pub struct Host {
    pub rt: spec_fn(RtFn, Seq<int>, int) -> (int, int),
    pub user: spec_fn(Seq<char>, Seq<int>, int) -> (int, int),
    pub float: spec_fn(Arith, int, int) -> int,
    pub float_test: spec_fn(FloatCond, int, int) -> bool,
    pub widen: spec_fn(int) -> int,
    pub row: spec_fn(Cell, Seq<int>) -> int,
    pub text: spec_fn(Seq<char>) -> int,
    pub cell: spec_fn(usize) -> int,
    pub code: spec_fn(Seq<char>) -> int,
    pub stored: spec_fn(int, int) -> int,
    /// The boxed values.
    pub nil: int,
    pub long: spec_fn(int) -> int,
    pub double: spec_fn(int) -> int,
    pub boolean: spec_fn(int) -> int,
    pub truthy: spec_fn(int) -> bool,
}

/// The bridge boxes what it is given and tells the truth of it, and leaves the world alone in that;
/// everything but nil and what is false is true; a call through a cache is the call.
pub open spec fn is_fair(h: Host) -> bool {
    &&& forall|w: int| #[trigger] (h.rt)(RtFn::ConstNil, Seq::empty(), w) == (h.nil, w)
    &&& forall|w: int| #[trigger] (h.rt)(RtFn::ConstTrue, Seq::empty(), w) == ((h.boolean)(1), w)
    &&& forall|w: int| #[trigger] (h.rt)(RtFn::ConstFalse, Seq::empty(), w) == ((h.boolean)(0), w)
    &&& forall|w: int| (#[trigger] (h.rt)(RtFn::Safepoint, Seq::empty(), w)).1 == w
    &&& forall|xs: Seq<int>, w: int| xs.len() == 1 ==> #[trigger] (h.rt)(RtFn::ConstLong, xs, w) == ((h.long)(xs[0]), w)
    &&& forall|xs: Seq<int>, w: int| xs.len() == 1 ==> #[trigger] (h.rt)(RtFn::ConstDouble, xs, w) == ((h.double)(xs[0]), w)
    &&& forall|xs: Seq<int>, w: int| xs.len() == 1 ==> #[trigger] (h.rt)(RtFn::BoxBool, xs, w) == ((h.boolean)(xs[0]), w)
    &&& forall|xs: Seq<int>, w: int| xs.len() == 1 ==> #[trigger] (h.rt)(RtFn::Truthiness, xs, w) == (if (h.truthy)(xs[0]) { 1int } else { 0int }, w)
    &&& forall|n: int| #[trigger] (h.truthy)((h.long)(n))
    &&& forall|n: int| #[trigger] (h.truthy)((h.double)(n))
    &&& forall|n: int| #[trigger] (h.truthy)((h.boolean)(n)) == (n != 0)
    &&& forall|xs: Seq<int>, w: int| xs.len() == 4 ==> #[trigger] (h.rt)(RtFn::CallIc, xs, w) == (h.rt)(RtFn::Call, xs.drop_last(), w)
}

/// What a word of an integer holds of a number.
pub open spec fn wrapped(n: int) -> int {
    let m = n % 0x1_0000_0000_0000_0000int;
    if m < 0x8000_0000_0000_0000int { m } else { m - 0x1_0000_0000_0000_0000int }
}

/// A number is one that a word holds.
pub open spec fn is_word(n: int) -> bool {
    -0x8000_0000_0000_0000int <= n < 0x8000_0000_0000_0000int
}

/// What an arithmetic instruction computes.
pub open spec fn computed(h: Host, op: Arith, a: int, b: int) -> int {
    match op {
        Arith::Iadd => wrapped(a + b),
        Arith::Isub => wrapped(a - b),
        Arith::Imul => wrapped(a * b),
        Arith::Smulhi => (a * b) / 0x1_0000_0000_0000_0000int,
        _ => (h.float)(op, a, b),
    }
}

/// Whether a condition holds of two integers.
pub open spec fn tested(cond: IntCond, a: int, b: int) -> bool {
    match cond {
        IntCond::Equal => a == b,
        IntCond::SignedLessThan => a < b,
        IntCond::SignedGreaterThan => a > b,
        IntCond::SignedLessThanOrEqual => a <= b,
        IntCond::SignedGreaterThanOrEqual => a >= b,
    }
}

pub open spec fn flag(b: bool) -> int {
    if b { 1 } else { 0 }
}

/// The words of variables.
pub type Vars = Map<VarId, int>;

/// The state of a machine: what requests have yielded, the variables, the cells on the stack, the
/// parameters of the function, and the world.
pub struct Mach {
    pub vals: Map<usize, int>,
    pub vars: Vars,
    pub cells: Map<(usize, usize), int>,
    pub params: Seq<int>,
    pub world: int,
}

/// Where a machine is: at a request, on the way to a block, or out of the function.
pub enum Spot {
    At(int, Mach),
    To(usize, Seq<int>, Mach),
    Left(int, int),
    Nowhere,
}

pub open spec fn words(m: Mach, xs: Seq<usize>) -> Seq<int> {
    Seq::new(xs.len(), |i: int| m.vals[xs[i]])
}

pub open spec fn put(m: Mach, p: usize, x: int) -> Mach {
    Mach { vals: m.vals.insert(p, x), ..m }
}

/// What a call gives.
pub open spec fn called(h: Host, what: OpView, args: Seq<int>, w: int) -> (int, int) {
    match what {
        OpView::ImportRt(f) => (h.rt)(f, args, w),
        OpView::ImportUser(name) => (h.user)(name, args, w),
        _ => (0, w),
    }
}

/// What the request at `p` does to the state, where it does not lead elsewhere.
pub open spec fn carried_out(h: Host, ops: Seq<OpView>, p: usize, m: Mach) -> Mach {
    match ops[p as int] {
        OpView::BlockParam { block, index } => put(m, p, m.params[index as int]),
        OpView::DefVar { var, value } => Mach { vars: m.vars.insert(var, m.vals[value]), ..m },
        OpView::UseVar(v) => put(m, p, m.vars[v]),
        OpView::Iconst { ty, value } => put(m, p, value as int),
        OpView::F64const(bits) => put(m, p, bits as int),
        OpView::Binary { op, a, b } => put(m, p, computed(h, op, m.vals[a], m.vals[b])),
        OpView::IntTest { cond, a, b } => put(m, p, flag(tested(cond, m.vals[a], m.vals[b]))),
        OpView::IntTestImm { cond, a, imm } => put(m, p, flag(tested(cond, m.vals[a], imm as int))),
        OpView::FloatTest { cond, a, b } => put(m, p, flag((h.float_test)(cond, m.vals[a], m.vals[b]))),
        OpView::FcvtFromSint(a) => put(m, p, (h.widen)(m.vals[a])),
        OpView::Call { func, args } => {
            let (x, w) = called(h, ops[func as int], words(m, args), m.world);
            put(Mach { world: w, ..m }, p, x)
        },
        OpView::CallVoid { func, args } => Mach { world: called(h, ops[func as int], words(m, args), m.world).1, ..m },
        OpView::FuncAddr(f) => put(m, p, match ops[f as int] {
            OpView::ImportUser(name) => (h.code)(name),
            _ => 0,
        }),
        OpView::StackStore { value, slot, cell, index } => Mach { cells: m.cells.insert((slot, index), m.vals[value]), ..m },
        OpView::StackAddr(slot) => put(m, p, match ops[slot as int] {
            OpView::StackSlot { cell, count } => (h.row)(cell, Seq::new(count as nat, |i: int| m.cells[(slot, i as usize)])),
            _ => 0,
        }),
        OpView::DataAddr(d) => put(m, p, match ops[d as int] {
            OpView::TextData(t) => (h.text)(t),
            _ => (h.cell)(d),
        }),
        OpView::LoadPtr(a) => put(m, p, (h.stored)(m.vals[a], m.world)),
        _ => m,
    }
}

/// The position, from `i` on, from which a block is filled.
pub open spec fn landing(ops: Seq<OpView>, b: usize, i: int) -> Option<int>
    decreases ops.len() - i,
{
    if i < 0 || i >= ops.len() {
        None
    } else if ops[i] == OpView::SwitchTo(b) {
        Some(i + 1)
    } else {
        landing(ops, b, i + 1)
    }
}

/// A request gives block `b` a parameter.
pub open spec fn is_param_of(op: OpView, b: usize) -> bool {
    op matches OpView::AppendParam { block, ty } && block == b
}

/// How many of the first `n` requests give block `b` a parameter.
pub open spec fn params_before(ops: Seq<OpView>, b: usize, n: int) -> nat
    decreases n,
{
    if n <= 0 { 0 } else { params_before(ops, b, n - 1) + (if is_param_of(ops[n - 1], b) { 1nat } else { 0nat }) }
}

/// The values with the parameters of block `b` among the first `n` requests.
pub open spec fn given(ops: Seq<OpView>, b: usize, args: Seq<int>, vals: Map<usize, int>, n: int) -> Map<usize, int>
    decreases n,
{
    if n <= 0 {
        vals
    } else if is_param_of(ops[n - 1], b) {
        given(ops, b, args, vals, n - 1).insert((n - 1) as usize, args[params_before(ops, b, n - 1) as int])
    } else {
        given(ops, b, args, vals, n - 1)
    }
}

/// The next spot of a machine.  A branch goes to its first block where its word is not zero.
pub open spec fn moved(h: Host, ops: Seq<OpView>, s: Spot) -> Spot {
    match s {
        Spot::At(p, m) => if p < 0 || p >= ops.len() {
            Spot::Nowhere
        } else {
            match ops[p] {
                OpView::Brif { cond, then_block, then_args, else_block, else_args } => if m.vals[cond] != 0 {
                    Spot::To(then_block, words(m, then_args), m)
                } else {
                    Spot::To(else_block, words(m, else_args), m)
                },
                OpView::Jump { block, args } => Spot::To(block, words(m, args), m),
                OpView::Return(x) => Spot::Left(m.vals[x], m.world),
                _ => Spot::At(p + 1, carried_out(h, ops, p as usize, m)),
            }
        },
        Spot::To(b, args, m) => match landing(ops, b, 0) {
            Some(p) => Spot::At(p, Mach { vals: given(ops, b, args, m.vals, ops.len() as int), ..m }),
            None => Spot::Nowhere,
        },
        _ => s,
    }
}

/// The spot of a machine `n` moves on.
pub open spec fn walked(h: Host, ops: Seq<OpView>, s: Spot, n: nat) -> Spot
    decreases n,
{
    if n == 0 { s } else { walked(h, ops, moved(h, ops, s), (n - 1) as nat) }
}

/// A machine comes from one spot to the other.
pub open spec fn reaches(h: Host, ops: Seq<OpView>, s: Spot, t: Spot) -> bool {
    exists|n: nat| #[trigger] walked(h, ops, s, n) == t
}

/// The representation of a value: boxed where nothing else is known.
pub open spec fn kept_as(reprs: Map<u32, Repr>, v: VarId) -> Repr {
    if reprs.dom().contains(v.0) { reprs[v.0] } else { Repr::Boxed }
}

/// The boxed value that a word of a representation stands for.
pub open spec fn boxed(h: Host, r: Repr, x: int) -> int {
    match r {
        Repr::Boxed => x,
        Repr::Long => (h.long)(x),
        Repr::Double => (h.double)(x),
        Repr::Bool => (h.boolean)(x),
    }
}

/// What a function is read with: the representations of its values, and the names that are pinned.
pub struct Reading {
    pub reprs: Map<u32, Repr>,
    pub pins: Seq<Seq<char>>,
}

/// The boxed value of a variable.
pub open spec fn value_of(h: Host, e: Reading, vars: Vars, v: VarId) -> int {
    boxed(h, kept_as(e.reprs, v), vars[v])
}

pub open spec fn values_of(h: Host, e: Reading, vars: Vars, vs: Seq<VarId>) -> Seq<int> {
    Seq::new(vs.len(), |i: int| value_of(h, e, vars, vs[i]))
}

/// What comes of an instruction: a word and the world then, or the function is left with a value; or
/// nothing that can be told.
pub enum Effect {
    Gives(int, int),
    Leaves(int, int),
    Unknown,
}

pub open spec fn gives(r: (int, int)) -> Effect {
    Effect::Gives(r.0, r.1)
}

/// A row of values and their number, as a bridge function takes them.
pub open spec fn in_row(h: Host, xs: Seq<int>, n: int) -> Seq<int> {
    if xs.len() == 0 { seq![0int, 0int] } else { seq![(h.row)(Cell::Word, xs), n] }
}

/// A text with its length in bytes, as a bridge function takes it.
pub open spec fn as_text(h: Host, t: Seq<char>) -> Seq<int> {
    seq![(h.text)(t), emission::byte_len(t) as int]
}

/// The word of a float, of a value kept as a float or an integer.
pub open spec fn as_float(h: Host, r: Repr, x: int) -> int {
    if r == Repr::Long { (h.widen)(x) } else { x }
}

/// The bridge function that does what a known function is to do, with its arguments in a row.
pub open spec fn in_a_row(kf: KnownFn, n: nat) -> Option<RtFn> {
    match kf {
        KnownFn::Vector => Some(RtFn::AllocVector),
        KnownFn::HashMap => Some(RtFn::AllocMap),
        KnownFn::HashSet => Some(RtFn::AllocSet),
        KnownFn::List => Some(RtFn::AllocList),
        KnownFn::Concat => Some(RtFn::Concat),
        KnownFn::Merge => Some(RtFn::Merge),
        KnownFn::Juxt => Some(RtFn::Juxt),
        KnownFn::Comp => Some(RtFn::Comp),
        KnownFn::Partial => Some(RtFn::Partial),
        KnownFn::Str => if n == 1 { None } else { Some(RtFn::StrN) },
        KnownFn::Println => if n == 1 { None } else { Some(RtFn::PrintlnN) },
        _ => None,
    }
}

/// A bridge function does what a known function is to do, with its arguments one by one.
pub open spec fn one_by_one(f: RtFn) -> Seq<KnownFn> {
    match f {
        RtFn::Rest => seq![KnownFn::Rest, KnownFn::Next],
        RtFn::Deref => seq![KnownFn::Deref, KnownFn::AtomDeref],
        RtFn::Add => seq![KnownFn::Add],
        RtFn::AllocCons => seq![KnownFn::Cons],
        RtFn::Apply => seq![KnownFn::Apply],
        RtFn::Assoc => seq![KnownFn::Assoc],
        RtFn::AssocBang => seq![KnownFn::AssocBang],
        RtFn::AssocIn => seq![KnownFn::AssocIn],
        RtFn::Atom => seq![KnownFn::Atom],
        RtFn::AtomReset => seq![KnownFn::AtomReset],
        RtFn::Complement => seq![KnownFn::Complement],
        RtFn::Conj => seq![KnownFn::Conj],
        RtFn::ConjBang => seq![KnownFn::ConjBang],
        RtFn::Contains => seq![KnownFn::Contains],
        RtFn::Count => seq![KnownFn::Count],
        RtFn::CountFilter => seq![KnownFn::CountFilter],
        RtFn::Disj => seq![KnownFn::Disj],
        RtFn::Dissoc => seq![KnownFn::Dissoc],
        RtFn::Div => seq![KnownFn::Div],
        RtFn::Drop => seq![KnownFn::Drop],
        RtFn::Eq => seq![KnownFn::Eq],
        RtFn::Every => seq![KnownFn::Every],
        RtFn::Filter => seq![KnownFn::Filter],
        RtFn::Filterv => seq![KnownFn::Filterv],
        RtFn::First => seq![KnownFn::First],
        RtFn::Frequencies => seq![KnownFn::Frequencies],
        RtFn::Get => seq![KnownFn::Get],
        RtFn::GetIn => seq![KnownFn::GetIn],
        RtFn::GroupBy => seq![KnownFn::GroupBy],
        RtFn::Gt => seq![KnownFn::Gt],
        RtFn::Gte => seq![KnownFn::Gte],
        RtFn::Identical => seq![KnownFn::Identical],
        RtFn::Into => seq![KnownFn::Into],
        RtFn::Into3 => seq![KnownFn::Into3],
        RtFn::IntoFilter => seq![KnownFn::IntoFilter],
        RtFn::IntoMap => seq![KnownFn::IntoMap],
        RtFn::IntoMapcat => seq![KnownFn::IntoMapcat],
        RtFn::IsBool => seq![KnownFn::IsBool],
        RtFn::IsEmpty => seq![KnownFn::IsEmpty],
        RtFn::IsInt => seq![KnownFn::IsInt],
        RtFn::IsKeyword => seq![KnownFn::IsKeyword],
        RtFn::IsMap => seq![KnownFn::IsMap],
        RtFn::IsNil => seq![KnownFn::IsNil],
        RtFn::IsNumber => seq![KnownFn::IsNumber],
        RtFn::IsSeq => seq![KnownFn::IsSeq],
        RtFn::IsString => seq![KnownFn::IsString],
        RtFn::IsSymbol => seq![KnownFn::IsSymbol],
        RtFn::IsVector => seq![KnownFn::IsVector],
        RtFn::Keep => seq![KnownFn::Keep],
        RtFn::Keys => seq![KnownFn::Keys],
        RtFn::LazySeq => seq![KnownFn::LazySeq],
        RtFn::Lt => seq![KnownFn::Lt],
        RtFn::Lte => seq![KnownFn::Lte],
        RtFn::MapIndexed => seq![KnownFn::MapIndexed],
        RtFn::MapSeq => seq![KnownFn::MapSeq],
        RtFn::Mapcat => seq![KnownFn::Mapcat],
        RtFn::Mapv => seq![KnownFn::Mapv],
        RtFn::Mul => seq![KnownFn::Mul],
        RtFn::Nth => seq![KnownFn::Nth],
        RtFn::Partition2 => seq![KnownFn::Partition2],
        RtFn::Partition3 => seq![KnownFn::Partition3],
        RtFn::Partition4 => seq![KnownFn::Partition4],
        RtFn::Peek => seq![KnownFn::Peek],
        RtFn::PersistentBang => seq![KnownFn::PersistentBang],
        RtFn::Pop => seq![KnownFn::Pop],
        RtFn::Pr => seq![KnownFn::Pr],
        RtFn::Print => seq![KnownFn::Print],
        RtFn::Println => seq![KnownFn::Println],
        RtFn::Prn => seq![KnownFn::Prn],
        RtFn::Range1 => seq![KnownFn::Range1],
        RtFn::Range2 => seq![KnownFn::Range2],
        RtFn::Range3 => seq![KnownFn::Range3],
        RtFn::Reduce2 => seq![KnownFn::Reduce2],
        RtFn::Reduce3 => seq![KnownFn::Reduce3],
        RtFn::Rem => seq![KnownFn::Rem],
        RtFn::Remove => seq![KnownFn::Remove],
        RtFn::Repeatedly => seq![KnownFn::Repeatedly],
        RtFn::Reverse => seq![KnownFn::Reverse],
        RtFn::SetBang => seq![KnownFn::SetBangVar],
        RtFn::SomePred => seq![KnownFn::SomePred],
        RtFn::Sort => seq![KnownFn::Sort],
        RtFn::SortBy => seq![KnownFn::SortBy],
        RtFn::Str => seq![KnownFn::Str],
        RtFn::Sub => seq![KnownFn::Sub],
        RtFn::Take => seq![KnownFn::Take],
        RtFn::ToSeq => seq![KnownFn::ToSeq],
        RtFn::Transient => seq![KnownFn::Transient],
        RtFn::Try => seq![KnownFn::TryCatchFinally],
        RtFn::Update => seq![KnownFn::Update],
        RtFn::Vals => seq![KnownFn::Vals],
        RtFn::Vec => seq![KnownFn::Vec],
        RtFn::WithOutStr => seq![KnownFn::WithOutStr],
        RtFn::Zipmap => seq![KnownFn::Zipmap],
        _ => Seq::empty(),
    }
}

/// What a sum, a difference or a product of two integers is.
pub open spec fn whole(kf: KnownFn, x: int, y: int) -> int {
    match kf {
        KnownFn::Add => x + y,
        KnownFn::Sub => x - y,
        _ => x * y,
    }
}

/// Whether a comparison holds of two integers.
pub open spec fn holds(kf: KnownFn, x: int, y: int) -> bool {
    match kf {
        KnownFn::Lt => x < y,
        KnownFn::Gt => x > y,
        KnownFn::Lte => x <= y,
        KnownFn::Gte => x >= y,
        _ => x == y,
    }
}

/// The instruction on floats that does what a known function is to do.
pub open spec fn on_floats(kf: KnownFn) -> Arith {
    match kf {
        KnownFn::Add => Arith::Fadd,
        KnownFn::Sub => Arith::Fsub,
        KnownFn::Mul => Arith::Fmul,
        _ => Arith::Fdiv,
    }
}

/// The condition on floats that a known function tests.
pub open spec fn floats_are(kf: KnownFn) -> FloatCond {
    match kf {
        KnownFn::Lt => FloatCond::LessThan,
        KnownFn::Gt => FloatCond::GreaterThan,
        KnownFn::Lte => FloatCond::LessThanOrEqual,
        _ => FloatCond::GreaterThanOrEqual,
    }
}

pub open spec fn adds_up(kf: KnownFn) -> bool {
    kf is Add || kf is Sub || kf is Mul
}

pub open spec fn compares(kf: KnownFn) -> bool {
    kf is Lt || kf is Gt || kf is Lte || kf is Gte
}

/// A known function on two words, for a word of representation `r`: integers are added up where a word
/// holds the result, and an overflow is thrown otherwise, with which the function is left.
pub open spec fn raw(h: Host, e: Reading, r: Repr, kf: KnownFn, a: VarId, b: VarId, vars: Vars, w: int) -> Effect {
    let x = vars[a];
    let y = vars[b];
    let ra = kept_as(e.reprs, a);
    let rb = kept_as(e.reprs, b);
    let number = (ra is Long || ra is Double) && (rb is Long || rb is Double);
    if r is Long && adds_up(kf) {
        if !is_word(x) || !is_word(y) {
            Effect::Unknown
        } else if is_word(whole(kf, x, y)) {
            Effect::Gives(whole(kf, x, y), w)
        } else {
            let (error, w1) = (h.rt)(RtFn::OverflowError, Seq::empty(), w);
            let (nil, w2) = (h.rt)(RtFn::Throw, seq![error], w1);
            Effect::Leaves(nil, w2)
        }
    } else if r is Double && (adds_up(kf) || kf is Div) && number {
        Effect::Gives((h.float)(on_floats(kf), as_float(h, ra, x), as_float(h, rb, y)), w)
    } else if r is Bool && compares(kf) && ra is Long && rb is Long {
        Effect::Gives(flag(holds(kf, x, y)), w)
    } else if r is Bool && compares(kf) && number {
        Effect::Gives(flag((h.float_test)(floats_are(kf), as_float(h, ra, x), as_float(h, rb, y))), w)
    } else if r is Bool && kf is Eq {
        Effect::Gives(flag(x == y), w)
    } else {
        Effect::Unknown
    }
}

/// A call of a known function.
pub open spec fn known(h: Host, e: Reading, d: VarId, kf: KnownFn, args: Seq<VarId>, vars: Vars, w: int) -> Effect {
    let r = kept_as(e.reprs, d);
    let xs = values_of(h, e, vars, args);
    if !(r is Boxed) && args.len() == 2 {
        raw(h, e, r, kf, args[0], args[1], vars, w)
    } else if kf is AtomSwap {
        if args.len() < 2 {
            Effect::Unknown
        } else {
            gives((h.rt)(RtFn::AtomSwap, seq![xs[0], xs[1]] + in_row(h, xs.skip(2), args.len() - 2), w))
        }
    } else if kf is WithBindings {
        if args.len() < 1 || args.len() > i32::MAX {
            Effect::Unknown
        } else {
            let pairs = (args.len() - 1) / 2;
            gives((h.rt)(RtFn::WithBindings, in_row(h, if pairs > 0 { xs.drop_last() } else { Seq::empty() }, pairs).push(xs.last()), w))
        }
    } else {
        match in_a_row(kf, args.len()) {
            Some(f) => gives((h.rt)(f, in_row(h, xs, if kf is HashMap { xs.len() as int / 2 } else { xs.len() as int }), w)),
            None => if exists|f: RtFn| #[trigger] one_by_one(f).contains(kf) {
                gives((h.rt)(choose|f: RtFn| #[trigger] one_by_one(f).contains(kf), xs, w))
            } else {
                Effect::Gives(h.nil, w)
            },
        }
    }
}

/// A literal.
pub open spec fn literal(h: Host, r: Repr, c: Const, w: int) -> Effect {
    match c {
        Const::Nil => Effect::Gives(h.nil, w),
        Const::Bool(b) => Effect::Gives(if r is Bool { flag(b) } else { (h.boolean)(flag(b)) }, w),
        Const::Long(n) => Effect::Gives(if r is Long { n as int } else { (h.long)(n as int) }, w),
        Const::Double(bits) => Effect::Gives(if r is Double { bits as int } else { (h.double)(bits as int) }, w),
        Const::Char(c) => gives((h.rt)(RtFn::ConstChar, seq![(c as u32) as int], w)),
        Const::Str(t) => gives((h.rt)(RtFn::ConstString, as_text(h, t@), w)),
        Const::Symbol(t) => gives((h.rt)(RtFn::ConstSymbol, as_text(h, t@), w)),
        Const::Keyword(_) => Effect::Unknown,
    }
}

/// The keys and values of pairs, in turn.
pub open spec fn in_turn(xs: Seq<(VarId, VarId)>) -> Seq<VarId>
    decreases xs.len(),
{
    if xs.len() == 0 { Seq::empty() } else { in_turn(xs.drop_last()).push(xs.last().0).push(xs.last().1) }
}

/// A closure over the values of variables.
pub open spec fn made(h: Host, e: Reading, t: ClosureTemplate, captures: Seq<VarId>, vars: Vars, w: int) -> Effect {
    let caught = in_row(h, values_of(h, e, vars, captures), captures.len() as int);
    if t.arity_fn_names@.len() == 0 {
        Effect::Gives(h.nil, w)
    } else if t.arity_fn_names@.len() == 1 {
        let name = match t.name {
            Some(n) => n@,
            None => t.arity_fn_names@[0]@,
        };
        let code = (h.code)(t.arity_fn_names@[0]@);
        let args = as_text(h, name) + seq![code, t.param_counts@[0] as i64 as int] + caught;
        gives((h.rt)(if t.is_variadic@[0] { RtFn::MakeFnVariadic } else { RtFn::MakeFn }, args, w))
    } else if t.param_counts@.len() != t.arity_fn_names@.len() || t.is_variadic@.len() != t.arity_fn_names@.len() {
        Effect::Unknown
    } else {
        let n = t.arity_fn_names@.len();
        let name = match t.name {
            Some(n) => n@,
            None => t.arity_fn_names@[0]@,
        };
        let codes = (h.row)(Cell::Word, Seq::new(n, |i: int| (h.code)(t.arity_fn_names@[i]@)));
        let counts = (h.row)(Cell::Word, Seq::new(n, |i: int| t.param_counts@[i] as i64 as int));
        let flags = (h.row)(Cell::Byte, Seq::new(n, |i: int| flag(t.is_variadic@[i])));
        gives((h.rt)(RtFn::MakeFnMulti, as_text(h, name) + seq![codes, counts, flags, n as int] + caught, w))
    }
}

/// The bridge function that makes a collection of a kind in a region.
pub open spec fn in_region(kind: RegionAllocKind) -> RtFn {
    match kind {
        RegionAllocKind::Vector => RtFn::RegionAllocVector,
        RegionAllocKind::HashMap => RtFn::RegionAllocMap,
        RegionAllocKind::HashSet => RtFn::RegionAllocSet,
        RegionAllocKind::List => RtFn::RegionAllocList,
        RegionAllocKind::Cons => RtFn::RegionAllocCons,
    }
}

/// A collection in a region, which its handle names; a pair needs its two parts.
pub open spec fn made_in_region(h: Host, e: Reading, region: VarId, kind: RegionAllocKind, vs: Seq<VarId>, vars: Vars, w: int) -> Effect {
    let xs = values_of(h, e, vars, vs);
    if kind is Cons {
        if vs.len() == 2 { gives((h.rt)(RtFn::RegionAllocCons, seq![vars[region], xs[0], xs[1]], w)) } else { Effect::Gives(h.nil, w) }
    } else {
        gives((h.rt)(in_region(kind), seq![vars[region]] + in_row(h, xs, if kind is HashMap { vs.len() as int / 2 } else { vs.len() as int }), w))
    }
}

/// What an instruction that has a value computes.
pub open spec fn effect(h: Host, e: Reading, inst: Inst, vars: Vars, w: int) -> Effect {
    match inst {
        Inst::Const(d, c) => literal(h, kept_as(e.reprs, d), c, w),
        Inst::LoadLocal(_, _) => Effect::Gives(h.nil, w),
        Inst::LoadGlobal(_, ns, name) => if e.pins.contains(name@) { Effect::Unknown } else { gives((h.rt)(RtFn::LoadGlobal, as_text(h, ns@) + as_text(h, name@), w)) },
        Inst::LoadVar(_, ns, name) => gives((h.rt)(RtFn::LoadVar, as_text(h, ns@) + as_text(h, name@), w)),
        Inst::AllocVector(_, vs) => gives((h.rt)(RtFn::AllocVector, in_row(h, values_of(h, e, vars, vs@), vs@.len() as int), w)),
        Inst::AllocMap(_, ps) => gives((h.rt)(RtFn::AllocMap, in_row(h, values_of(h, e, vars, in_turn(ps@)), ps@.len() as int), w)),
        Inst::AllocSet(_, vs) => gives((h.rt)(RtFn::AllocSet, in_row(h, values_of(h, e, vars, vs@), vs@.len() as int), w)),
        Inst::AllocList(_, vs) => gives((h.rt)(RtFn::AllocList, in_row(h, values_of(h, e, vars, vs@), vs@.len() as int), w)),
        Inst::AllocCons(_, a, b) => gives((h.rt)(RtFn::AllocCons, seq![value_of(h, e, vars, a), value_of(h, e, vars, b)], w)),
        Inst::AllocClosure(_, t, vs) => made(h, e, t, vs@, vars, w),
        Inst::CallKnown(d, kf, vs) => known(h, e, d, kf, vs@, vars, w),
        Inst::Call(_, f, vs) => gives((h.rt)(RtFn::Call, seq![value_of(h, e, vars, f)] + in_row(h, values_of(h, e, vars, vs@), vs@.len() as int), w)),
        Inst::CallDirect(_, name, vs) => gives((h.user)(name@, values_of(h, e, vars, vs@), w)),
        Inst::Deref(_, v) => gives((h.rt)(RtFn::Deref, seq![value_of(h, e, vars, v)], w)),
        Inst::DefVar(_, ns, name, v) => gives((h.rt)(RtFn::DefVar, as_text(h, ns@) + as_text(h, name@) + seq![value_of(h, e, vars, v)], w)),
        Inst::RegionAlloc(_, region, kind, vs) => made_in_region(h, e, region, kind, vs@, vars, w),
        Inst::RegionStart(_) => gives((h.rt)(RtFn::RegionStart, Seq::empty(), w)),
        Inst::CallWithRegion(_, name, vs, region) => gives((h.user)(name@, values_of(h, e, vars, vs@).push(vars[region]), w)),
        _ => Effect::Unknown,
    }
}

/// The variables and the world behind an instruction, where the function goes on; a value and the world
/// where it is left.
pub enum Step {
    On(Vars, int),
    Out(int, int),
    Lost,
}

/// What an instruction does.
pub open spec fn done(h: Host, e: Reading, inst: Inst, vars: Vars, w: int) -> Step {
    match inst {
        Inst::SetBang(a, b) => Step::On(vars, (h.rt)(RtFn::SetBang, seq![value_of(h, e, vars, a), value_of(h, e, vars, b)], w).1),
        Inst::Throw(v) => Step::On(vars, (h.rt)(RtFn::Throw, seq![value_of(h, e, vars, v)], w).1),
        Inst::RegionEnd(v) => Step::On(vars, (h.rt)(RtFn::RegionEnd, seq![vars[v]], w).1),
        Inst::Phi(_, _) | Inst::Recur(_) | Inst::SourceLoc(_) => Step::On(vars, w),
        _ => match (inst.spec_dst(), effect(h, e, inst, vars, w)) {
            (Some(d), Effect::Gives(x, w1)) => Step::On(vars.insert(d, x), w1),
            (_, Effect::Leaves(x, w1)) => Step::Out(x, w1),
            _ => Step::Lost,
        },
    }
}

/// What the instructions from `i` on do, one after the other.
pub open spec fn all_done(h: Host, e: Reading, insts: Seq<Inst>, i: int, vars: Vars, w: int) -> Step
    decreases insts.len() - i,
{
    if i < 0 || i >= insts.len() {
        Step::On(vars, w)
    } else {
        match done(h, e, insts[i], vars, w) {
            Step::On(vars1, w1) => all_done(h, e, insts, i + 1, vars1, w1),
            o => o,
        }
    }
}

/// What a phi takes from block `from`, of its inputs from `i` on.
pub open spec fn taken(es: Seq<(BlockId, VarId)>, from: BlockId, i: int) -> Option<VarId>
    decreases es.len() - i,
{
    if i < 0 || i >= es.len() {
        None
    } else if es[i].0 == from {
        Some(es[i].1)
    } else {
        taken(es, from, i + 1)
    }
}

/// The word for a value kept as `r` of variable `v`: as it is, or boxed.
pub open spec fn kept(h: Host, e: Reading, vars: Vars, v: VarId, r: Repr) -> Option<int> {
    if kept_as(e.reprs, v) == r {
        Some(vars[v])
    } else if r is Boxed {
        Some(value_of(h, e, vars, v))
    } else {
        None
    }
}

/// The variables with the first `n` phis, all of them taken as one from block `from`.
pub open spec fn joined(h: Host, e: Reading, phis: Seq<Inst>, from: BlockId, vars: Vars, n: int) -> Option<Vars>
    decreases n,
{
    if n <= 0 {
        Some(vars)
    } else {
        match (joined(h, e, phis, from, vars, n - 1), phis[n - 1]) {
            (Some(r), Inst::Phi(d, es)) => match taken(es@, from, 0) {
                Some(v) => match kept(h, e, vars, v, kept_as(e.reprs, d)) {
                    Some(x) => Some(r.insert(d, x)),
                    None => None,
                },
                None => None,
            },
            _ => None,
        }
    }
}

/// The variables with the first `n` phis given new values, all of them as one.
pub open spec fn passed(h: Host, e: Reading, phis: Seq<Inst>, args: Seq<VarId>, vars: Vars, n: int) -> Option<Vars>
    decreases n,
{
    if n <= 0 {
        Some(vars)
    } else {
        match (passed(h, e, phis, args, vars, n - 1), phis[n - 1]) {
            (Some(r), Inst::Phi(d, _)) => match kept(h, e, vars, args[n - 1], kept_as(e.reprs, d)) {
                Some(x) => Some(r.insert(d, x)),
                None => None,
            },
            _ => None,
        }
    }
}

/// The variables with the first `n` parameters set to arguments.
pub open spec fn started(vars: Vars, params: Seq<(String, VarId)>, args: Seq<int>, n: int) -> Vars
    decreases n,
{
    if n <= 0 { vars } else { started(vars, params, args, n - 1).insert(params[n - 1].1, args[n - 1]) }
}

/// The bridge tells what kind a value is of and what number is in it, and leaves the world alone in
/// that.
pub open spec fn tells_kinds(h: Host) -> bool {
    &&& forall|xs: Seq<int>, w: int| (#[trigger] (h.rt)(RtFn::ValueTag, xs, w)).1 == w
    &&& forall|xs: Seq<int>, w: int| (#[trigger] (h.rt)(RtFn::UnboxLong, xs, w)).1 == w
    &&& forall|xs: Seq<int>, w: int| (#[trigger] (h.rt)(RtFn::UnboxDouble, xs, w)).1 == w
}

/// The variables with the first `n` parameters set to arguments, each of which is taken out of its box
/// where an integer or a float is asked for; nothing where one is of another kind.
pub open spec fn guarded(h: Host, params: Seq<(String, VarId)>, specs: Seq<Repr>, args: Seq<int>, vars: Vars, w: int, n: int) -> Option<Vars>
    decreases n,
{
    if n <= 0 {
        Some(vars)
    } else {
        let x = args[n - 1];
        let v = params[n - 1].1;
        match guarded(h, params, specs, args, vars, w, n - 1) {
            None => None,
            Some(set) => if n - 1 < specs.len() && specs[n - 1] is Long {
                if (h.rt)(RtFn::ValueTag, seq![x], w).0 == 1 { Some(set.insert(v, (h.rt)(RtFn::UnboxLong, seq![x], w).0)) } else { None }
            } else if n - 1 < specs.len() && specs[n - 1] is Double {
                if (h.rt)(RtFn::ValueTag, seq![x], w).0 == 2 { Some(set.insert(v, (h.rt)(RtFn::UnboxDouble, seq![x], w).0)) } else { None }
            } else {
                Some(set.insert(v, x))
            },
        }
    }
}

/// A block of the given number.
pub open spec fn numbered(blocks: Seq<Block>, id: BlockId) -> int {
    choose|k: int| 0 <= k < blocks.len() && (#[trigger] blocks[k]).id == id
}

/// What running from the start of a block gives, in at most `fuel` blocks: a value and the world.
pub open spec fn run(h: Host, e: Reading, blocks: Seq<Block>, k: int, vars: Vars, w: int, fuel: nat) -> Option<(int, int)>
    decreases fuel, 1int,
{
    if fuel == 0 || k < 0 || k >= blocks.len() {
        None
    } else {
        match all_done(h, e, blocks[k].insts@, 0, vars, w) {
            Step::On(vars1, w1) => match blocks[k].terminator {
                Terminator::Return(v) => Some((value_of(h, e, vars1, v), w1)),
                Terminator::Jump(to) => run_on(h, e, blocks, k, to, vars1, w1, fuel),
                Terminator::Branch { cond, then_block, else_block } => run_on(h, e, blocks, k, if (h.truthy)(value_of(h, e, vars1, cond)) { then_block } else { else_block }, vars1, w1, fuel),
                Terminator::RecurJump { target, args } => {
                    let t = numbered(blocks, target);
                    if !(0 < t < blocks.len()) || blocks[t].phis@.len() != args@.len() {
                        None
                    } else {
                        match passed(h, e, blocks[t].phis@, args@, vars1, args@.len() as int) {
                            Some(vars2) => run(h, e, blocks, t, vars2, w1, (fuel - 1) as nat),
                            None => None,
                        }
                    }
                },
                Terminator::Unreachable => Some((h.nil, w1)),
            },
            Step::Out(x, w1) => Some((x, w1)),
            Step::Lost => None,
        }
    }
}

/// What running on from the end of block `k` to block `to` gives.
pub open spec fn run_on(h: Host, e: Reading, blocks: Seq<Block>, k: int, to: BlockId, vars: Vars, w: int, fuel: nat) -> Option<(int, int)>
    decreases fuel, 0int,
{
    let t = numbered(blocks, to);
    if fuel == 0 || !(0 < t < blocks.len()) {
        None
    } else {
        match joined(h, e, blocks[t].phis@, blocks[k].id, vars, blocks[t].phis@.len() as int) {
            Some(vars1) => run(h, e, blocks, t, vars1, w, (fuel - 1) as nat),
            None => None,
        }
    }
}

} // verus!
