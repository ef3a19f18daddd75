//! Functions as plain data: what a value has to say to be read as an instruction, a block or a
//! function.
use crate::ir::{BlockId, BlockView, ConstView, FunctionView, InstView, KnownFn, SpanView, TemplateView, TermView, VarId};
use crate::ir_convert;
use crate::value::Value;
use vstd::prelude::*;

verus! {

/// The value is a map, and `x` stands in it under the keyword `key`, before anything else that does.
pub open spec fn says(v: Value, key: Seq<char>, x: Value) -> bool {
    match v {
        Value::Dict(m) => exists|i: int| #[trigger] stands_at(m@, key, i) && m@[i].1 == x,
        _ => false,
    }
}

/// The entry at `i` is the first under the keyword `key`.
pub open spec fn stands_at(m: Seq<(Value, Value)>, key: Seq<char>, i: int) -> bool {
    0 <= i < m.len() && is_keyword(m[i].0, key) && forall|j: int| 0 <= j < i ==> !is_keyword(#[trigger] m[j].0, key)
}

/// The value is the keyword `key`, without a namespace.
pub open spec fn is_keyword(v: Value, key: Seq<char>) -> bool {
    v is Keyword && v->Keyword_0.ns is None && v->Keyword_0.name@ == key
}

/// Nothing, or nil, stands in the map under the keyword.
pub open spec fn is_silent(v: Value, key: Seq<char>) -> bool {
    match v {
        Value::Dict(m) => says(v, key, Value::Nil) || forall|j: int| 0 <= j < m@.len() ==> !is_keyword(#[trigger] m@[j].0, key),
        _ => false,
    }
}

/// The value is the number.
pub open spec fn is_number(x: Value, n: int) -> bool {
    x is Long && x->Long_0 == n
}

/// The number `n` stands under the keyword.
pub open spec fn number(v: Value, key: Seq<char>, n: int) -> bool {
    exists|x: Value| #[trigger] says(v, key, x) && is_number(x, n)
}

/// The text `t` stands under the keyword.
pub open spec fn text(v: Value, key: Seq<char>, t: Seq<char>) -> bool {
    exists|x: Value| #[trigger] says(v, key, x) && x is Str && x->Str_0@ == t
}

/// A keyword that is named `t` stands under the keyword.
pub open spec fn name(v: Value, key: Seq<char>, t: Seq<char>) -> bool {
    exists|x: Value| #[trigger] says(v, key, x) && x is Keyword && x->Keyword_0.name@ == t
}

/// The value is a vector or a list of these items.
pub open spec fn is_items(x: Value, items: Seq<Value>) -> bool {
    match x {
        Value::Vector(vs) => vs@ == items,
        Value::List(vs) => vs@ == items,
        _ => false,
    }
}

/// A vector or a list of these items stands under the keyword.
pub open spec fn items(v: Value, key: Seq<char>, xs: Seq<Value>) -> bool {
    exists|x: Value| #[trigger] says(v, key, x) && is_items(x, xs)
}

pub open spec fn are_numbers(xs: Seq<Value>, vs: Seq<VarId>) -> bool {
    xs.len() == vs.len() && forall|i: int| 0 <= i < xs.len() ==> is_number(#[trigger] xs[i], vs[i].0 as int)
}

/// The numbers of the values `vs` stand under the keyword.
pub open spec fn numbers(v: Value, key: Seq<char>, vs: Seq<VarId>) -> bool {
    exists|xs: Seq<Value>| #[trigger] items(v, key, xs) && are_numbers(xs, vs)
}

/// The value is a pair of two numbers.
pub open spec fn is_pair(x: Value, a: int, b: int) -> bool {
    exists|xs: Seq<Value>| #[trigger] is_items(x, xs) && xs.len() == 2 && is_number(xs[0], a) && is_number(xs[1], b)
}

/// The value is a pair of a text and a number.
pub open spec fn is_named(x: Value, t: Seq<char>, b: int) -> bool {
    exists|xs: Seq<Value>| #[trigger] is_items(x, xs) && xs.len() == 2 && xs[0] is Str && xs[0]->Str_0@ == t && is_number(xs[1], b)
}

pub open spec fn are_texts(xs: Seq<Value>, ts: Seq<Seq<char>>) -> bool {
    xs.len() == ts.len() && forall|i: int| 0 <= i < xs.len() ==> (#[trigger] xs[i]) is Str && xs[i]->Str_0@ == ts[i]
}

/// The texts stand under the keyword; where there are none, nothing has to.
pub open spec fn texts(v: Value, key: Seq<char>, ts: Seq<Seq<char>>) -> bool {
    (ts.len() == 0 && is_silent(v, key)) || exists|xs: Seq<Value>| #[trigger] items(v, key, xs) && are_texts(xs, ts)
}

pub open spec fn are_counts(xs: Seq<Value>, ns: Seq<usize>) -> bool {
    xs.len() == ns.len() && forall|i: int| 0 <= i < xs.len() ==> is_number(#[trigger] xs[i], ns[i] as int)
}

/// The counts stand under the keyword; where there are none, nothing has to.
pub open spec fn counts(v: Value, key: Seq<char>, ns: Seq<usize>) -> bool {
    (ns.len() == 0 && is_silent(v, key)) || exists|xs: Seq<Value>| #[trigger] items(v, key, xs) && are_counts(xs, ns)
}

/// The text stands under the keyword, if there is one.
pub open spec fn maybe_text(v: Value, key: Seq<char>, t: Option<Seq<char>>) -> bool {
    match t {
        Some(t) => text(v, key, t),
        None => is_silent(v, key),
    }
}

/// The name that a known function goes by in the language, or by what it does where it has none there.
pub open spec fn known_name(kf: KnownFn) -> Option<Seq<char>> {
    match kf {
        KnownFn::Vector => Some("vector"@),
        KnownFn::HashMap => Some("hash-map"@),
        KnownFn::HashSet => Some("hash-set"@),
        KnownFn::List => Some("list"@),
        KnownFn::Assoc => Some("assoc"@),
        KnownFn::Dissoc => Some("dissoc"@),
        KnownFn::Conj => Some("conj"@),
        KnownFn::Disj => Some("disj"@),
        KnownFn::Get => Some("get"@),
        KnownFn::Nth => Some("nth"@),
        KnownFn::Count => Some("count"@),
        KnownFn::Contains => Some("contains"@),
        KnownFn::Transient => Some("transient"@),
        KnownFn::AssocBang => Some("assoc!"@),
        KnownFn::ConjBang => Some("conj!"@),
        KnownFn::PersistentBang => Some("persistent!"@),
        KnownFn::First => Some("first"@),
        KnownFn::Rest => Some("rest"@),
        KnownFn::Next => Some("next"@),
        KnownFn::Cons => Some("cons"@),
        KnownFn::ToSeq => Some("seq"@),
        KnownFn::LazySeq => Some("lazy-seq"@),
        KnownFn::Add => Some("+"@),
        KnownFn::Sub => Some("-"@),
        KnownFn::Mul => Some("*"@),
        KnownFn::Div => Some("/"@),
        KnownFn::Rem => Some("rem"@),
        KnownFn::Eq => Some("="@),
        KnownFn::Lt => Some("<"@),
        KnownFn::Gt => Some(">"@),
        KnownFn::Lte => Some("<="@),
        KnownFn::Gte => Some(">="@),
        KnownFn::IsNil => Some("nil?"@),
        KnownFn::IsSeq => Some("seq?"@),
        KnownFn::IsVector => Some("vector?"@),
        KnownFn::IsMap => Some("map?"@),
        KnownFn::Identical => Some("identical?"@),
        KnownFn::Str => Some("str"@),
        KnownFn::Deref => Some("deref"@),
        KnownFn::Println => Some("println"@),
        KnownFn::Pr => Some("pr"@),
        KnownFn::AtomDeref => Some("atom-deref"@),
        KnownFn::AtomReset => Some("atom-reset"@),
        KnownFn::AtomSwap => Some("atom-swap"@),
        KnownFn::Apply => Some("apply"@),
        KnownFn::TryCatchFinally => Some("try-catch-finally"@),
        _ => None,
    }
}

/// The value stands for the literal.
pub open spec fn is_const(v: Value, c: ConstView) -> bool {
    match c {
        ConstView::Nil => name(v, "type"@, "nil"@),
        ConstView::Bool(b) => name(v, "type"@, "bool"@) && says(v, "val"@, Value::Bool(b)),
        ConstView::Long(n) => name(v, "type"@, "long"@) && says(v, "val"@, Value::Long(n)),
        ConstView::Double(d) => name(v, "type"@, "double"@) && says(v, "val"@, Value::Double(d)),
        ConstView::Str(t) => name(v, "type"@, "string"@) && text(v, "val"@, t),
        ConstView::Keyword(t) => name(v, "type"@, "keyword"@) && text(v, "val"@, t),
        ConstView::Symbol(t) => name(v, "type"@, "symbol"@) && text(v, "val"@, t),
        ConstView::Char(c) => name(v, "type"@, "char"@) && says(v, "val"@, Value::Char(c)),
    }
}

/// The value stands for the instruction: it bears its name, and has each operand under a name of its own.
pub open spec fn is_inst(v: Value, inst: InstView) -> bool {
    match inst {
        InstView::Const(d, c) => name(v, "op"@, "const"@) && number(v, "dst"@, d.0 as int) && exists|x: Value| #[trigger] says(v, "value"@, x) && is_const(x, c),
        InstView::LoadLocal(d, n) => name(v, "op"@, "load-local"@) && number(v, "dst"@, d.0 as int) && text(v, "name"@, n),
        InstView::LoadGlobal(d, ns, n) => name(v, "op"@, "load-global"@) && number(v, "dst"@, d.0 as int) && text(v, "ns"@, ns) && text(v, "name"@, n),
        InstView::AllocVector(d, vs) => name(v, "op"@, "alloc-vector"@) && number(v, "dst"@, d.0 as int) && numbers(v, "elems"@, vs),
        InstView::AllocSet(d, vs) => name(v, "op"@, "alloc-set"@) && number(v, "dst"@, d.0 as int) && numbers(v, "elems"@, vs),
        InstView::AllocList(d, vs) => name(v, "op"@, "alloc-list"@) && number(v, "dst"@, d.0 as int) && numbers(v, "elems"@, vs),
        InstView::AllocMap(d, ps) => name(v, "op"@, "alloc-map"@) && number(v, "dst"@, d.0 as int) && exists|xs: Seq<Value>| #[trigger] items(v, "pairs"@, xs) && are_pairs(xs, ps),
        InstView::AllocCons(d, a, b) => name(v, "op"@, "alloc-cons"@) && number(v, "dst"@, d.0 as int) && number(v, "head"@, a.0 as int) && number(v, "tail"@, b.0 as int),
        InstView::AllocClosure(d, t, vs) => {
            &&& name(v, "op"@, "alloc-closure"@)
            &&& number(v, "dst"@, d.0 as int)
            &&& numbers(v, "captures"@, vs)
            &&& maybe_text(v, "closure-name"@, t.name)
            &&& texts(v, "arity-fn-names"@, t.arity_fn_names)
            &&& counts(v, "param-counts"@, t.param_counts)
            &&& texts(v, "capture-names"@, t.capture_names)
            &&& t.is_variadic == Seq::new(t.arity_fn_names.len(), |i: int| false)
            &&& t.body_forms.len() == 0
        },
        InstView::CallKnown(d, kf, vs) => {
            &&& name(v, "op"@, "call-known"@)
            &&& number(v, "dst"@, d.0 as int)
            &&& known_name(kf) is Some
            &&& name(v, "func"@, known_name(kf)->0)
            &&& numbers(v, "args"@, vs)
        },
        InstView::Call(d, f, vs) => name(v, "op"@, "call"@) && number(v, "dst"@, d.0 as int) && number(v, "callee"@, f.0 as int) && numbers(v, "args"@, vs),
        InstView::Deref(d, a) => name(v, "op"@, "deref"@) && number(v, "dst"@, d.0 as int) && number(v, "src"@, a.0 as int),
        InstView::DefVar(d, ns, n, a) => name(v, "op"@, "def-var"@) && number(v, "dst"@, d.0 as int) && text(v, "ns"@, ns) && text(v, "name"@, n) && number(v, "value"@, a.0 as int),
        InstView::SetBang(a, b) => name(v, "op"@, "set!"@) && number(v, "var"@, a.0 as int) && number(v, "value"@, b.0 as int),
        InstView::Throw(a) => name(v, "op"@, "throw"@) && number(v, "value"@, a.0 as int),
        InstView::Phi(d, es) => name(v, "op"@, "phi"@) && number(v, "dst"@, d.0 as int) && exists|xs: Seq<Value>| #[trigger] items(v, "entries"@, xs) && are_entries(xs, es),
        InstView::Recur(vs) => name(v, "op"@, "recur"@) && numbers(v, "args"@, vs),
        InstView::SourceLoc(p) => name(v, "op"@, "source-loc"@) && text(v, "file"@, p.file) && number(v, "line"@, p.line as int) && number(v, "col"@, p.col as int) && p.start == 0 && p.end == 0,
        _ => false,
    }
}

pub open spec fn are_pairs(xs: Seq<Value>, ps: Seq<(VarId, VarId)>) -> bool {
    xs.len() == ps.len() && forall|i: int| 0 <= i < xs.len() ==> is_pair(#[trigger] xs[i], ps[i].0.0 as int, ps[i].1.0 as int)
}

pub open spec fn are_entries(xs: Seq<Value>, es: Seq<(BlockId, VarId)>) -> bool {
    xs.len() == es.len() && forall|i: int| 0 <= i < xs.len() ==> is_pair(#[trigger] xs[i], es[i].0.0 as int, es[i].1.0 as int)
}

pub open spec fn are_params(xs: Seq<Value>, ps: Seq<(Seq<char>, VarId)>) -> bool {
    xs.len() == ps.len() && forall|i: int| 0 <= i < xs.len() ==> is_named(#[trigger] xs[i], ps[i].0, ps[i].1.0 as int)
}

/// The value stands for the end of a block: it bears its name, and has each operand under a name of its
/// own.
pub open spec fn is_end(v: Value, t: TermView) -> bool {
    match t {
        TermView::Jump(b) => name(v, "op"@, "jump"@) && number(v, "target"@, b.0 as int),
        TermView::Branch(c, a, b) => name(v, "op"@, "branch"@) && number(v, "cond"@, c.0 as int) && number(v, "then-block"@, a.0 as int) && number(v, "else-block"@, b.0 as int),
        TermView::Return(a) => name(v, "op"@, "return"@) && number(v, "var"@, a.0 as int),
        TermView::RecurJump(b, vs) => name(v, "op"@, "recur-jump"@) && number(v, "target"@, b.0 as int) && numbers(v, "args"@, vs),
        TermView::Unreachable => name(v, "op"@, "unreachable"@),
    }
}

pub open spec fn are_insts(xs: Seq<Value>, insts: Seq<InstView>) -> bool {
    xs.len() == insts.len() && forall|i: int| 0 <= i < xs.len() ==> is_inst(#[trigger] xs[i], insts[i])
}

/// The value stands for the block.
pub open spec fn is_block(v: Value, b: BlockView) -> bool {
    &&& number(v, "id"@, b.id.0 as int)
    &&& exists|xs: Seq<Value>| #[trigger] items(v, "phis"@, xs) && are_insts(xs, b.phis)
    &&& exists|xs: Seq<Value>| #[trigger] items(v, "insts"@, xs) && are_insts(xs, b.insts)
    &&& exists|x: Value| #[trigger] says(v, "terminator"@, x) && is_end(x, b.terminator)
}

pub open spec fn are_blocks(xs: Seq<Value>, bs: Seq<BlockView>) -> bool {
    xs.len() == bs.len() && forall|i: int| 0 <= i < xs.len() ==> is_block(#[trigger] xs[i], bs[i])
}

/// The value stands for the function, with those inside it.
pub open spec fn is_function(v: Value, f: FunctionView) -> bool
    decreases f,
{
    &&& maybe_text(v, "name"@, f.name)
    &&& number(v, "next-var"@, f.next_var as int)
    &&& number(v, "next-block"@, f.next_block as int)
    &&& exists|xs: Seq<Value>| #[trigger] items(v, "params"@, xs) && are_params(xs, f.params)
    &&& exists|xs: Seq<Value>| #[trigger] items(v, "blocks"@, xs) && are_blocks(xs, f.blocks)
    &&& f.span is None
    &&& !f.is_async
    &&& f.local_seed_reprs.len() == 0
    &&& f.pins.len() == 0
    &&& (f.subfunctions.len() == 0 && is_silent(v, "subfunctions"@)) || exists|xs: Seq<Value>| #[trigger] items(v, "subfunctions"@, xs) && xs.len() == f.subfunctions.len()
        && forall|i: int| 0 <= i < f.subfunctions.len() ==> is_function(xs[i], #[trigger] f.subfunctions[i])
}

/// The value stands for the function, apart from those inside it.
spec fn is_head(v: Value, f: FunctionView) -> bool {
    &&& maybe_text(v, "name"@, f.name)
    &&& number(v, "next-var"@, f.next_var as int)
    &&& number(v, "next-block"@, f.next_block as int)
    &&& exists|xs: Seq<Value>| #[trigger] items(v, "params"@, xs) && are_params(xs, f.params)
    &&& exists|xs: Seq<Value>| #[trigger] items(v, "blocks"@, xs) && are_blocks(xs, f.blocks)
}

spec fn bare(f: FunctionView) -> FunctionView {
    FunctionView {
        name: f.name,
        params: f.params,
        blocks: f.blocks,
        next_var: f.next_var,
        next_block: f.next_block,
        span: None,
        subfunctions: Seq::empty(),
        is_async: false,
        local_seed_reprs: Seq::empty(),
        pins: Seq::empty(),
    }
}

proof fn entry_is_found(m: Seq<(Value, Value)>, key: Seq<char>, i: int, at: int)
    requires
        stands_at(m, key, at),
        0 <= i <= at,
    ensures
        ir_convert::entry_of(m, key, i) == at,
    decreases at - i,
{
    if i < at {
        assert(!is_keyword(m[i].0, key));
        entry_is_found(m, key, i + 1, at);
    }
}

proof fn entry_is_missing(m: Seq<(Value, Value)>, key: Seq<char>, i: int)
    requires
        0 <= i <= m.len(),
        forall|j: int| 0 <= j < m.len() ==> !is_keyword(#[trigger] m[j].0, key),
    ensures
        ir_convert::entry_of(m, key, i) == m.len(),
    decreases m.len() - i,
{
    if i < m.len() {
        assert(!is_keyword(m[i].0, key));
        entry_is_missing(m, key, i + 1);
    }
}

/// What stands in a map is found there.
proof fn said(v: Value, key: Seq<char>, x: Value)
    requires
        says(v, key, x),
    ensures
        v is Dict,
        ir_convert::field(v->Dict_0@, key) == (if x is Nil { None } else { Some(x) }),
        ({
            let i = ir_convert::entry_of(v->Dict_0@, key, 0);
            0 <= i < v->Dict_0@.len() && v->Dict_0@[i].1 == x
        }),
        !(x is Nil) ==> ir_convert::need(v->Dict_0@, key) == Ok::<Value, ir_convert::ConvView>(x),
{
    let m = v->Dict_0@;
    let i = choose|i: int| #[trigger] stands_at(m, key, i) && m[i].1 == x;
    entry_is_found(m, key, 0, i);
}

proof fn silent(v: Value, key: Seq<char>)
    requires
        is_silent(v, key),
    ensures
        v is Dict,
        ir_convert::field(v->Dict_0@, key) is None,
        ({
            let i = ir_convert::entry_of(v->Dict_0@, key, 0);
            i == v->Dict_0@.len() || (0 <= i < v->Dict_0@.len() && v->Dict_0@[i].1 is Nil)
        }),
{
    if says(v, key, Value::Nil) {
        said(v, key, Value::Nil);
    } else {
        entry_is_missing(v->Dict_0@, key, 0);
    }
}

proof fn number_is_read(v: Value, key: Seq<char>, n: u32)
    requires
        number(v, key, n as int),
    ensures
        ir_convert::var_field(v->Dict_0@, key) == Ok::<VarId, ir_convert::ConvView>(VarId(n)),
        ir_convert::block_field(v->Dict_0@, key) == Ok::<BlockId, ir_convert::ConvView>(BlockId(n)),
        ir_convert::u32_field(v->Dict_0@, key) == Ok::<u32, ir_convert::ConvView>(n),
{
    let x = choose|x: Value| #[trigger] says(v, key, x) && is_number(x, n as int);
    said(v, key, x);
}

proof fn text_is_read(v: Value, key: Seq<char>, t: Seq<char>)
    requires
        text(v, key, t),
    ensures
        ir_convert::text_field(v->Dict_0@, key) == Ok::<Seq<char>, ir_convert::ConvView>(t),
        ir_convert::text_opt_field(v->Dict_0@, key) == Ok::<Option<Seq<char>>, ir_convert::ConvView>(Some(t)),
{
    let x = choose|x: Value| #[trigger] says(v, key, x) && x is Str && x->Str_0@ == t;
    said(v, key, x);
}

proof fn name_is_read(v: Value, key: Seq<char>, t: Seq<char>)
    requires
        name(v, key, t),
    ensures
        v is Dict,
        ir_convert::keyword_field(v->Dict_0@, key) == Ok::<Seq<char>, ir_convert::ConvView>(t),
{
    let x = choose|x: Value| #[trigger] says(v, key, x) && x is Keyword && x->Keyword_0.name@ == t;
    said(v, key, x);
}

proof fn items_are_read(v: Value, key: Seq<char>, xs: Seq<Value>)
    requires
        items(v, key, xs),
    ensures
        ir_convert::items_field(v->Dict_0@, key) == Ok::<Seq<Value>, ir_convert::ConvView>(xs),
        ir_convert::field(v->Dict_0@, key) is Some,
        ir_convert::items_of(ir_convert::field(v->Dict_0@, key)->0) == Ok::<Seq<Value>, ir_convert::ConvView>(xs),
{
    let x = choose|x: Value| #[trigger] says(v, key, x) && is_items(x, xs);
    said(v, key, x);
}

proof fn numbers_of(xs: Seq<Value>, vs: Seq<VarId>, i: int)
    requires
        are_numbers(xs, vs),
        0 <= i <= xs.len(),
    ensures
        ir_convert::vars_of(xs, i, vs.take(i)) == Ok::<Seq<VarId>, ir_convert::ConvView>(vs),
    decreases xs.len() - i,
{
    if i < xs.len() {
        assert(is_number(xs[i], vs[i].0 as int));
        assert(vs.take(i).push(vs[i]) =~= vs.take(i + 1));
        numbers_of(xs, vs, i + 1);
    } else {
        assert(vs.take(i) =~= vs);
    }
}

proof fn numbers_are_read(v: Value, key: Seq<char>, vs: Seq<VarId>)
    requires
        numbers(v, key, vs),
    ensures
        ir_convert::vars_field(v->Dict_0@, key) == Ok::<Seq<VarId>, ir_convert::ConvView>(vs),
{
    let xs = choose|xs: Seq<Value>| #[trigger] items(v, key, xs) && are_numbers(xs, vs);
    items_are_read(v, key, xs);
    numbers_of(xs, vs, 0);
    assert(vs.take(0) =~= Seq::empty());
}

proof fn texts_are(xs: Seq<Value>, ts: Seq<Seq<char>>, i: int)
    requires
        are_texts(xs, ts),
        0 <= i <= xs.len(),
    ensures
        ir_convert::texts_of(xs, i, ts.take(i)) == Ok::<Seq<Seq<char>>, ir_convert::ConvView>(ts),
    decreases xs.len() - i,
{
    if i < xs.len() {
        assert(xs[i] is Str && xs[i]->Str_0@ == ts[i]);
        assert(ts.take(i).push(ts[i]) =~= ts.take(i + 1));
        texts_are(xs, ts, i + 1);
    } else {
        assert(ts.take(i) =~= ts);
    }
}

proof fn texts_are_read(v: Value, key: Seq<char>, ts: Seq<Seq<char>>)
    requires
        texts(v, key, ts),
        v is Dict,
    ensures
        ir_convert::texts_opt_field(v->Dict_0@, key) == Ok::<Seq<Seq<char>>, ir_convert::ConvView>(ts),
{
    if ts.len() == 0 && is_silent(v, key) {
        silent(v, key);
        assert(ts =~= Seq::empty());
    } else {
        let xs = choose|xs: Seq<Value>| #[trigger] items(v, key, xs) && are_texts(xs, ts);
        items_are_read(v, key, xs);
        texts_are(xs, ts, 0);
        assert(ts.take(0) =~= Seq::empty());
    }
}

proof fn counts_are(xs: Seq<Value>, ns: Seq<usize>, i: int)
    requires
        are_counts(xs, ns),
        0 <= i <= xs.len(),
    ensures
        ir_convert::counts_of(xs, i, ns.take(i)) == Ok::<Seq<usize>, ir_convert::ConvView>(ns),
    decreases xs.len() - i,
{
    if i < xs.len() {
        assert(is_number(xs[i], ns[i] as int));
        assert(ns.take(i).push(ns[i]) =~= ns.take(i + 1));
        counts_are(xs, ns, i + 1);
    } else {
        assert(ns.take(i) =~= ns);
    }
}

proof fn counts_are_read(v: Value, key: Seq<char>, ns: Seq<usize>)
    requires
        counts(v, key, ns),
        v is Dict,
    ensures
        ir_convert::counts_opt_field(v->Dict_0@, key) == Ok::<Seq<usize>, ir_convert::ConvView>(ns),
{
    if ns.len() == 0 && is_silent(v, key) {
        silent(v, key);
        assert(ns =~= Seq::empty());
    } else {
        let xs = choose|xs: Seq<Value>| #[trigger] items(v, key, xs) && are_counts(xs, ns);
        items_are_read(v, key, xs);
        counts_are(xs, ns, 0);
        assert(ns.take(0) =~= Seq::empty());
    }
}

proof fn maybe_text_is_read(v: Value, key: Seq<char>, t: Option<Seq<char>>)
    requires
        maybe_text(v, key, t),
    ensures
        ir_convert::text_opt_field(v->Dict_0@, key) == Ok::<Option<Seq<char>>, ir_convert::ConvView>(t),
{
    match t {
        Some(t) => text_is_read(v, key, t),
        None => silent(v, key),
    }
}

proof fn pairs_are(xs: Seq<Value>, ps: Seq<(VarId, VarId)>, i: int)
    requires
        are_pairs(xs, ps),
        0 <= i <= xs.len(),
    ensures
        ir_convert::pairs_of(xs, i, ps.take(i)) == Ok::<Seq<(VarId, VarId)>, ir_convert::ConvView>(ps),
    decreases xs.len() - i,
{
    if i < xs.len() {
        assert(is_pair(xs[i], ps[i].0.0 as int, ps[i].1.0 as int));
        assert(ps.take(i).push(ps[i]) =~= ps.take(i + 1));
        assert(ir_convert::pair_of(xs[i]) == Ok::<(VarId, VarId), ir_convert::ConvView>(ps[i]));
        pairs_are(xs, ps, i + 1);
    } else {
        assert(ps.take(i) =~= ps);
    }
}

proof fn entries_are(xs: Seq<Value>, es: Seq<(BlockId, VarId)>, i: int)
    requires
        are_entries(xs, es),
        0 <= i <= xs.len(),
    ensures
        ir_convert::phi_entries_of(xs, i, es.take(i)) == Ok::<Seq<(BlockId, VarId)>, ir_convert::ConvView>(es),
    decreases xs.len() - i,
{
    if i < xs.len() {
        assert(is_pair(xs[i], es[i].0.0 as int, es[i].1.0 as int));
        assert(es.take(i).push(es[i]) =~= es.take(i + 1));
        assert(ir_convert::phi_entry_of(xs[i]) == Ok::<(BlockId, VarId), ir_convert::ConvView>(es[i]));
        entries_are(xs, es, i + 1);
    } else {
        assert(es.take(i) =~= es);
    }
}

proof fn params_are(xs: Seq<Value>, ps: Seq<(Seq<char>, VarId)>, i: int)
    requires
        are_params(xs, ps),
        0 <= i <= xs.len(),
    ensures
        ir_convert::params_of(xs, i, ps.take(i)) == Ok::<Seq<(Seq<char>, VarId)>, ir_convert::ConvView>(ps),
    decreases xs.len() - i,
{
    if i < xs.len() {
        assert(is_named(xs[i], ps[i].0, ps[i].1.0 as int));
        assert(ps.take(i).push(ps[i]) =~= ps.take(i + 1));
        assert(ir_convert::param_of(xs[i]) == Ok::<(Seq<char>, VarId), ir_convert::ConvView>(ps[i]));
        params_are(xs, ps, i + 1);
    } else {
        assert(ps.take(i) =~= ps);
    }
}

/// Every known function that has a name is read by it.
pub proof fn known_functions_are_read(kf: KnownFn)
    requires
        known_name(kf) is Some,
    ensures
        ir_convert::known_of(known_name(kf)->0) == Some(kf),
{
    reveal_strlit("vector");
    reveal_strlit("hash-map");
    reveal_strlit("hash-set");
    reveal_strlit("list");
    reveal_strlit("assoc");
    reveal_strlit("dissoc");
    reveal_strlit("conj");
    reveal_strlit("disj");
    reveal_strlit("get");
    reveal_strlit("nth");
    reveal_strlit("count");
    reveal_strlit("contains");
    reveal_strlit("transient");
    reveal_strlit("assoc!");
    reveal_strlit("conj!");
    reveal_strlit("persistent!");
    reveal_strlit("first");
    reveal_strlit("rest");
    reveal_strlit("next");
    reveal_strlit("cons");
    reveal_strlit("seq");
    reveal_strlit("lazy-seq");
    reveal_strlit("+");
    reveal_strlit("-");
    reveal_strlit("*");
    reveal_strlit("/");
    reveal_strlit("rem");
    reveal_strlit("=");
    reveal_strlit("<");
    reveal_strlit(">");
    reveal_strlit("<=");
    reveal_strlit(">=");
    reveal_strlit("nil?");
    reveal_strlit("seq?");
    reveal_strlit("vector?");
    reveal_strlit("map?");
    reveal_strlit("identical?");
    reveal_strlit("str");
    reveal_strlit("deref");
    reveal_strlit("println");
    reveal_strlit("pr");
    reveal_strlit("atom-deref");
    reveal_strlit("atom-reset");
    reveal_strlit("atom-swap");
    reveal_strlit("apply");
    reveal_strlit("try-catch-finally");
    assert("vector"@.len() == 6);
    assert("hash-map"@.len() == 8);
    assert("hash-set"@.len() == 8);
    assert("list"@.len() == 4);
    assert("assoc"@.len() == 5);
    assert("dissoc"@.len() == 6);
    assert("conj"@.len() == 4);
    assert("disj"@.len() == 4);
    assert("get"@.len() == 3);
    assert("nth"@.len() == 3);
    assert("count"@.len() == 5);
    assert("contains"@.len() == 8);
    assert("transient"@.len() == 9);
    assert("assoc!"@.len() == 6);
    assert("conj!"@.len() == 5);
    assert("persistent!"@.len() == 11);
    assert("first"@.len() == 5);
    assert("rest"@.len() == 4);
    assert("next"@.len() == 4);
    assert("cons"@.len() == 4);
    assert("seq"@.len() == 3);
    assert("lazy-seq"@.len() == 8);
    assert("+"@.len() == 1);
    assert("-"@.len() == 1);
    assert("*"@.len() == 1);
    assert("/"@.len() == 1);
    assert("rem"@.len() == 3);
    assert("="@.len() == 1);
    assert("<"@.len() == 1);
    assert(">"@.len() == 1);
    assert("<="@.len() == 2);
    assert(">="@.len() == 2);
    assert("nil?"@.len() == 4);
    assert("seq?"@.len() == 4);
    assert("vector?"@.len() == 7);
    assert("map?"@.len() == 4);
    assert("identical?"@.len() == 10);
    assert("str"@.len() == 3);
    assert("deref"@.len() == 5);
    assert("println"@.len() == 7);
    assert("pr"@.len() == 2);
    assert("atom-deref"@.len() == 10);
    assert("atom-reset"@.len() == 10);
    assert("atom-swap"@.len() == 9);
    assert("apply"@.len() == 5);
    assert("try-catch-finally"@.len() == 17);
    match kf {
        KnownFn::Vector => {
            assert(ir_convert::known_of("vector"@) == Some(KnownFn::Vector));
        },
        KnownFn::HashMap => {
            assert(ir_convert::known_of("hash-map"@) == Some(KnownFn::HashMap));
        },
        KnownFn::HashSet => {
            assert("hash-set"@[5] != "hash-map"@[5]);
            assert(ir_convert::known_of("hash-set"@) == Some(KnownFn::HashSet));
        },
        KnownFn::List => {
            assert(ir_convert::known_of("list"@) == Some(KnownFn::List));
        },
        KnownFn::Assoc => {
            assert(ir_convert::known_of("assoc"@) == Some(KnownFn::Assoc));
        },
        KnownFn::Dissoc => {
            assert("dissoc"@[0] != "vector"@[0]);
            assert(ir_convert::known_of("dissoc"@) == Some(KnownFn::Dissoc));
        },
        KnownFn::Conj => {
            assert("conj"@[0] != "list"@[0]);
            assert(ir_convert::known_of("conj"@) == Some(KnownFn::Conj));
        },
        KnownFn::Disj => {
            assert("disj"@[0] != "list"@[0]);
            assert("disj"@[0] != "conj"@[0]);
            assert(ir_convert::known_of("disj"@) == Some(KnownFn::Disj));
        },
        KnownFn::Get => {
            assert(ir_convert::known_of("get"@) == Some(KnownFn::Get));
        },
        KnownFn::Nth => {
            assert("nth"@[0] != "get"@[0]);
            assert(ir_convert::known_of("nth"@) == Some(KnownFn::Nth));
        },
        KnownFn::Count => {
            assert("count"@[0] != "assoc"@[0]);
            assert(ir_convert::known_of("count"@) == Some(KnownFn::Count));
        },
        KnownFn::Contains => {
            assert("contains"@[0] != "hash-map"@[0]);
            assert("contains"@[0] != "hash-set"@[0]);
            assert(ir_convert::known_of("contains"@) == Some(KnownFn::Contains));
        },
        KnownFn::Transient => {
            assert(ir_convert::known_of("transient"@) == Some(KnownFn::Transient));
        },
        KnownFn::AssocBang => {
            assert("assoc!"@[0] != "vector"@[0]);
            assert("assoc!"@[0] != "dissoc"@[0]);
            assert(ir_convert::known_of("assoc!"@) == Some(KnownFn::AssocBang));
        },
        KnownFn::ConjBang => {
            assert("conj!"@[0] != "assoc"@[0]);
            assert("conj!"@[2] != "count"@[2]);
            assert(ir_convert::known_of("conj!"@) == Some(KnownFn::ConjBang));
        },
        KnownFn::PersistentBang => {
            assert(ir_convert::known_of("persistent!"@) == Some(KnownFn::PersistentBang));
        },
        KnownFn::First => {
            assert("first"@[0] != "assoc"@[0]);
            assert("first"@[0] != "count"@[0]);
            assert("first"@[0] != "conj!"@[0]);
            assert(ir_convert::known_of("first"@) == Some(KnownFn::First));
        },
        KnownFn::Rest => {
            assert("rest"@[0] != "list"@[0]);
            assert("rest"@[0] != "conj"@[0]);
            assert("rest"@[0] != "disj"@[0]);
            assert(ir_convert::known_of("rest"@) == Some(KnownFn::Rest));
        },
        KnownFn::Next => {
            assert("next"@[0] != "list"@[0]);
            assert("next"@[0] != "conj"@[0]);
            assert("next"@[0] != "disj"@[0]);
            assert("next"@[0] != "rest"@[0]);
            assert(ir_convert::known_of("next"@) == Some(KnownFn::Next));
        },
        KnownFn::Cons => {
            assert("cons"@[0] != "list"@[0]);
            assert("cons"@[3] != "conj"@[3]);
            assert("cons"@[0] != "disj"@[0]);
            assert("cons"@[0] != "rest"@[0]);
            assert("cons"@[0] != "next"@[0]);
            assert(ir_convert::known_of("cons"@) == Some(KnownFn::Cons));
        },
        KnownFn::ToSeq => {
            assert("seq"@[0] != "get"@[0]);
            assert("seq"@[0] != "nth"@[0]);
            assert(ir_convert::known_of("seq"@) == Some(KnownFn::ToSeq));
        },
        KnownFn::LazySeq => {
            assert("lazy-seq"@[0] != "hash-map"@[0]);
            assert("lazy-seq"@[0] != "hash-set"@[0]);
            assert("lazy-seq"@[0] != "contains"@[0]);
            assert(ir_convert::known_of("lazy-seq"@) == Some(KnownFn::LazySeq));
        },
        KnownFn::Add => {
            assert(ir_convert::known_of("+"@) == Some(KnownFn::Add));
        },
        KnownFn::Sub => {
            assert("-"@[0] != "+"@[0]);
            assert(ir_convert::known_of("-"@) == Some(KnownFn::Sub));
        },
        KnownFn::Mul => {
            assert("*"@[0] != "+"@[0]);
            assert("*"@[0] != "-"@[0]);
            assert(ir_convert::known_of("*"@) == Some(KnownFn::Mul));
        },
        KnownFn::Div => {
            assert("/"@[0] != "+"@[0]);
            assert("/"@[0] != "-"@[0]);
            assert("/"@[0] != "*"@[0]);
            assert(ir_convert::known_of("/"@) == Some(KnownFn::Div));
        },
        KnownFn::Rem => {
            assert("rem"@[0] != "get"@[0]);
            assert("rem"@[0] != "nth"@[0]);
            assert("rem"@[0] != "seq"@[0]);
            assert(ir_convert::known_of("rem"@) == Some(KnownFn::Rem));
        },
        KnownFn::Eq => {
            assert("="@[0] != "+"@[0]);
            assert("="@[0] != "-"@[0]);
            assert("="@[0] != "*"@[0]);
            assert("="@[0] != "/"@[0]);
            assert(ir_convert::known_of("="@) == Some(KnownFn::Eq));
        },
        KnownFn::Lt => {
            assert("<"@[0] != "+"@[0]);
            assert("<"@[0] != "-"@[0]);
            assert("<"@[0] != "*"@[0]);
            assert("<"@[0] != "/"@[0]);
            assert("<"@[0] != "="@[0]);
            assert(ir_convert::known_of("<"@) == Some(KnownFn::Lt));
        },
        KnownFn::Gt => {
            assert(">"@[0] != "+"@[0]);
            assert(">"@[0] != "-"@[0]);
            assert(">"@[0] != "*"@[0]);
            assert(">"@[0] != "/"@[0]);
            assert(">"@[0] != "="@[0]);
            assert(">"@[0] != "<"@[0]);
            assert(ir_convert::known_of(">"@) == Some(KnownFn::Gt));
        },
        KnownFn::Lte => {
            assert(ir_convert::known_of("<="@) == Some(KnownFn::Lte));
        },
        KnownFn::Gte => {
            assert(">="@[0] != "<="@[0]);
            assert(ir_convert::known_of(">="@) == Some(KnownFn::Gte));
        },
        KnownFn::IsNil => {
            assert("nil?"@[0] != "list"@[0]);
            assert("nil?"@[0] != "conj"@[0]);
            assert("nil?"@[0] != "disj"@[0]);
            assert("nil?"@[0] != "rest"@[0]);
            assert("nil?"@[1] != "next"@[1]);
            assert("nil?"@[0] != "cons"@[0]);
            assert(ir_convert::known_of("nil?"@) == Some(KnownFn::IsNil));
        },
        KnownFn::IsSeq => {
            assert("seq?"@[0] != "list"@[0]);
            assert("seq?"@[0] != "conj"@[0]);
            assert("seq?"@[0] != "disj"@[0]);
            assert("seq?"@[0] != "rest"@[0]);
            assert("seq?"@[0] != "next"@[0]);
            assert("seq?"@[0] != "cons"@[0]);
            assert("seq?"@[0] != "nil?"@[0]);
            assert(ir_convert::known_of("seq?"@) == Some(KnownFn::IsSeq));
        },
        KnownFn::IsVector => {
            assert(ir_convert::known_of("vector?"@) == Some(KnownFn::IsVector));
        },
        KnownFn::IsMap => {
            assert("map?"@[0] != "list"@[0]);
            assert("map?"@[0] != "conj"@[0]);
            assert("map?"@[0] != "disj"@[0]);
            assert("map?"@[0] != "rest"@[0]);
            assert("map?"@[0] != "next"@[0]);
            assert("map?"@[0] != "cons"@[0]);
            assert("map?"@[0] != "nil?"@[0]);
            assert("map?"@[0] != "seq?"@[0]);
            assert(ir_convert::known_of("map?"@) == Some(KnownFn::IsMap));
        },
        KnownFn::Identical => {
            assert(ir_convert::known_of("identical?"@) == Some(KnownFn::Identical));
        },
        KnownFn::Str => {
            assert("str"@[0] != "get"@[0]);
            assert("str"@[0] != "nth"@[0]);
            assert("str"@[1] != "seq"@[1]);
            assert("str"@[0] != "rem"@[0]);
            assert(ir_convert::known_of("str"@) == Some(KnownFn::Str));
        },
        KnownFn::Deref => {
            assert("deref"@[0] != "assoc"@[0]);
            assert("deref"@[0] != "count"@[0]);
            assert("deref"@[0] != "conj!"@[0]);
            assert("deref"@[0] != "first"@[0]);
            assert(ir_convert::known_of("deref"@) == Some(KnownFn::Deref));
        },
        KnownFn::Println => {
            assert("println"@[0] != "vector?"@[0]);
            assert(ir_convert::known_of("println"@) == Some(KnownFn::Println));
        },
        KnownFn::Pr => {
            assert("pr"@[0] != "<="@[0]);
            assert("pr"@[0] != ">="@[0]);
            assert(ir_convert::known_of("pr"@) == Some(KnownFn::Pr));
        },
        KnownFn::AtomDeref => {
            assert("atom-deref"@[0] != "identical?"@[0]);
            assert(ir_convert::known_of("atom-deref"@) == Some(KnownFn::AtomDeref));
        },
        KnownFn::AtomReset => {
            assert("atom-reset"@[0] != "identical?"@[0]);
            assert("atom-reset"@[5] != "atom-deref"@[5]);
            assert(ir_convert::known_of("atom-reset"@) == Some(KnownFn::AtomReset));
        },
        KnownFn::AtomSwap => {
            assert("atom-swap"@[0] != "transient"@[0]);
            assert(ir_convert::known_of("atom-swap"@) == Some(KnownFn::AtomSwap));
        },
        KnownFn::Apply => {
            assert("apply"@[1] != "assoc"@[1]);
            assert("apply"@[0] != "count"@[0]);
            assert("apply"@[0] != "conj!"@[0]);
            assert("apply"@[0] != "first"@[0]);
            assert("apply"@[0] != "deref"@[0]);
            assert(ir_convert::known_of("apply"@) == Some(KnownFn::Apply));
        },
        KnownFn::TryCatchFinally => {
            assert(ir_convert::known_of("try-catch-finally"@) == Some(KnownFn::TryCatchFinally));
        },
        _ => {},
    }
}

/// A value that stands for a literal is read as that literal.
pub proof fn constants_are_read(v: Value, c: ConstView)
    requires
        is_const(v, c),
    ensures
        ir_convert::const_of(v) == Ok::<ConstView, ir_convert::ConvView>(c),
{
    reveal_strlit("nil");
    reveal_strlit("bool");
    reveal_strlit("long");
    reveal_strlit("double");
    reveal_strlit("string");
    reveal_strlit("keyword");
    reveal_strlit("symbol");
    reveal_strlit("char");
    assert("long"@[0] != "bool"@[0]);
    assert("string"@[0] != "double"@[0]);
    assert("symbol"@[0] != "double"@[0]);
    assert("symbol"@[1] != "string"@[1]);
    assert("char"@[0] != "bool"@[0]);
    assert("char"@[0] != "long"@[0]);
    let ty = match c {
        ConstView::Nil => "nil"@,
        ConstView::Bool(_) => "bool"@,
        ConstView::Long(_) => "long"@,
        ConstView::Double(_) => "double"@,
        ConstView::Str(_) => "string"@,
        ConstView::Keyword(_) => "keyword"@,
        ConstView::Symbol(_) => "symbol"@,
        ConstView::Char(_) => "char"@,
    };
    name_is_read(v, "type"@, ty);
    match c {
        ConstView::Nil => {},
        ConstView::Bool(b) => said(v, "val"@, Value::Bool(b)),
        ConstView::Long(n) => said(v, "val"@, Value::Long(n)),
        ConstView::Double(d) => said(v, "val"@, Value::Double(d)),
        ConstView::Str(t) => text_is_read(v, "val"@, t),
        ConstView::Keyword(t) => text_is_read(v, "val"@, t),
        ConstView::Symbol(t) => text_is_read(v, "val"@, t),
        ConstView::Char(c) => said(v, "val"@, Value::Char(c)),
    }
}

proof fn operation(v: Value, op: Seq<char>)
    requires
        name(v, "op"@, op),
    ensures
        ir_convert::to_inst(v) == ir_convert::inst_of(op, v->Dict_0@),
        ir_convert::to_terminator(v) == ir_convert::term_of(op, v->Dict_0@),
{
    name_is_read(v, "op"@, op);
}

proof fn operations_differ(m: Seq<(Value, Value)>)
    ensures
        ir_convert::inst_of("const"@, m) == ir_convert::const_inst(m),
        ir_convert::inst_of("load-local"@, m) == ir_convert::load_local_inst(m),
        ir_convert::inst_of("load-global"@, m) == ir_convert::load_global_inst(m),
        ir_convert::inst_of("alloc-vector"@, m) == ir_convert::alloc_vector_inst(m),
        ir_convert::inst_of("alloc-map"@, m) == ir_convert::alloc_map_inst(m),
        ir_convert::inst_of("alloc-set"@, m) == ir_convert::alloc_set_inst(m),
        ir_convert::inst_of("alloc-list"@, m) == ir_convert::alloc_list_inst(m),
        ir_convert::inst_of("alloc-cons"@, m) == ir_convert::alloc_cons_inst(m),
        ir_convert::inst_of("alloc-closure"@, m) == ir_convert::alloc_closure_inst(m),
        ir_convert::inst_of("call-known"@, m) == ir_convert::call_known_inst(m),
        ir_convert::inst_of("call"@, m) == ir_convert::call_inst(m),
        ir_convert::inst_of("deref"@, m) == ir_convert::deref_inst(m),
        ir_convert::inst_of("def-var"@, m) == ir_convert::def_var_inst(m),
        ir_convert::inst_of("set!"@, m) == ir_convert::set_bang_inst(m),
        ir_convert::inst_of("throw"@, m) == ir_convert::throw_inst(m),
        ir_convert::inst_of("phi"@, m) == ir_convert::phi_inst(m),
        ir_convert::inst_of("recur"@, m) == ir_convert::recur_inst(m),
        ir_convert::inst_of("source-loc"@, m) == ir_convert::source_loc_inst(m),
{
    reveal_strlit("const");
    reveal_strlit("load-local");
    reveal_strlit("load-global");
    reveal_strlit("alloc-vector");
    reveal_strlit("alloc-map");
    reveal_strlit("alloc-set");
    reveal_strlit("alloc-list");
    reveal_strlit("alloc-cons");
    reveal_strlit("alloc-closure");
    reveal_strlit("call-known");
    reveal_strlit("call");
    reveal_strlit("deref");
    reveal_strlit("def-var");
    reveal_strlit("set!");
    reveal_strlit("throw");
    reveal_strlit("phi");
    reveal_strlit("recur");
    reveal_strlit("source-loc");
    assert("const"@.len() == 5);
    assert("load-local"@.len() == 10);
    assert("load-global"@.len() == 11);
    assert("alloc-vector"@.len() == 12);
    assert("alloc-map"@.len() == 9);
    assert("alloc-set"@.len() == 9);
    assert("alloc-list"@.len() == 10);
    assert("alloc-cons"@.len() == 10);
    assert("alloc-closure"@.len() == 13);
    assert("call-known"@.len() == 10);
    assert("call"@.len() == 4);
    assert("deref"@.len() == 5);
    assert("def-var"@.len() == 7);
    assert("set!"@.len() == 4);
    assert("throw"@.len() == 5);
    assert("phi"@.len() == 3);
    assert("recur"@.len() == 5);
    assert("source-loc"@.len() == 10);
    assert("load-local"@ != "const"@);
    assert("load-global"@ != "const"@);
    assert("load-global"@ != "load-local"@);
    assert("alloc-vector"@ != "const"@);
    assert("alloc-vector"@ != "load-local"@);
    assert("alloc-vector"@ != "load-global"@);
    assert("alloc-map"@ != "const"@);
    assert("alloc-map"@ != "load-local"@);
    assert("alloc-map"@ != "load-global"@);
    assert("alloc-map"@ != "alloc-vector"@);
    assert("alloc-set"@ != "const"@);
    assert("alloc-set"@ != "load-local"@);
    assert("alloc-set"@ != "load-global"@);
    assert("alloc-set"@ != "alloc-vector"@);
    assert("alloc-set"@[6] != "alloc-map"@[6]);
    assert("alloc-set"@ != "alloc-map"@);
    assert("alloc-list"@ != "const"@);
    assert("alloc-list"@[0] != "load-local"@[0]);
    assert("alloc-list"@ != "load-local"@);
    assert("alloc-list"@ != "load-global"@);
    assert("alloc-list"@ != "alloc-vector"@);
    assert("alloc-list"@ != "alloc-map"@);
    assert("alloc-list"@ != "alloc-set"@);
    assert("alloc-cons"@ != "const"@);
    assert("alloc-cons"@[0] != "load-local"@[0]);
    assert("alloc-cons"@ != "load-local"@);
    assert("alloc-cons"@ != "load-global"@);
    assert("alloc-cons"@ != "alloc-vector"@);
    assert("alloc-cons"@ != "alloc-map"@);
    assert("alloc-cons"@ != "alloc-set"@);
    assert("alloc-cons"@[6] != "alloc-list"@[6]);
    assert("alloc-cons"@ != "alloc-list"@);
    assert("alloc-closure"@ != "const"@);
    assert("alloc-closure"@ != "load-local"@);
    assert("alloc-closure"@ != "load-global"@);
    assert("alloc-closure"@ != "alloc-vector"@);
    assert("alloc-closure"@ != "alloc-map"@);
    assert("alloc-closure"@ != "alloc-set"@);
    assert("alloc-closure"@ != "alloc-list"@);
    assert("alloc-closure"@ != "alloc-cons"@);
    assert("call-known"@ != "const"@);
    assert("call-known"@[0] != "load-local"@[0]);
    assert("call-known"@ != "load-local"@);
    assert("call-known"@ != "load-global"@);
    assert("call-known"@ != "alloc-vector"@);
    assert("call-known"@ != "alloc-map"@);
    assert("call-known"@ != "alloc-set"@);
    assert("call-known"@[0] != "alloc-list"@[0]);
    assert("call-known"@ != "alloc-list"@);
    assert("call-known"@[0] != "alloc-cons"@[0]);
    assert("call-known"@ != "alloc-cons"@);
    assert("call-known"@ != "alloc-closure"@);
    assert("call"@ != "const"@);
    assert("call"@ != "load-local"@);
    assert("call"@ != "load-global"@);
    assert("call"@ != "alloc-vector"@);
    assert("call"@ != "alloc-map"@);
    assert("call"@ != "alloc-set"@);
    assert("call"@ != "alloc-list"@);
    assert("call"@ != "alloc-cons"@);
    assert("call"@ != "alloc-closure"@);
    assert("call"@ != "call-known"@);
    assert("deref"@[0] != "const"@[0]);
    assert("deref"@ != "const"@);
    assert("deref"@ != "load-local"@);
    assert("deref"@ != "load-global"@);
    assert("deref"@ != "alloc-vector"@);
    assert("deref"@ != "alloc-map"@);
    assert("deref"@ != "alloc-set"@);
    assert("deref"@ != "alloc-list"@);
    assert("deref"@ != "alloc-cons"@);
    assert("deref"@ != "alloc-closure"@);
    assert("deref"@ != "call-known"@);
    assert("deref"@ != "call"@);
    assert("def-var"@ != "const"@);
    assert("def-var"@ != "load-local"@);
    assert("def-var"@ != "load-global"@);
    assert("def-var"@ != "alloc-vector"@);
    assert("def-var"@ != "alloc-map"@);
    assert("def-var"@ != "alloc-set"@);
    assert("def-var"@ != "alloc-list"@);
    assert("def-var"@ != "alloc-cons"@);
    assert("def-var"@ != "alloc-closure"@);
    assert("def-var"@ != "call-known"@);
    assert("def-var"@ != "call"@);
    assert("def-var"@ != "deref"@);
    assert("set!"@ != "const"@);
    assert("set!"@ != "load-local"@);
    assert("set!"@ != "load-global"@);
    assert("set!"@ != "alloc-vector"@);
    assert("set!"@ != "alloc-map"@);
    assert("set!"@ != "alloc-set"@);
    assert("set!"@ != "alloc-list"@);
    assert("set!"@ != "alloc-cons"@);
    assert("set!"@ != "alloc-closure"@);
    assert("set!"@ != "call-known"@);
    assert("set!"@[0] != "call"@[0]);
    assert("set!"@ != "call"@);
    assert("set!"@ != "deref"@);
    assert("set!"@ != "def-var"@);
    assert("throw"@[0] != "const"@[0]);
    assert("throw"@ != "const"@);
    assert("throw"@ != "load-local"@);
    assert("throw"@ != "load-global"@);
    assert("throw"@ != "alloc-vector"@);
    assert("throw"@ != "alloc-map"@);
    assert("throw"@ != "alloc-set"@);
    assert("throw"@ != "alloc-list"@);
    assert("throw"@ != "alloc-cons"@);
    assert("throw"@ != "alloc-closure"@);
    assert("throw"@ != "call-known"@);
    assert("throw"@ != "call"@);
    assert("throw"@[0] != "deref"@[0]);
    assert("throw"@ != "deref"@);
    assert("throw"@ != "def-var"@);
    assert("throw"@ != "set!"@);
    assert("phi"@ != "const"@);
    assert("phi"@ != "load-local"@);
    assert("phi"@ != "load-global"@);
    assert("phi"@ != "alloc-vector"@);
    assert("phi"@ != "alloc-map"@);
    assert("phi"@ != "alloc-set"@);
    assert("phi"@ != "alloc-list"@);
    assert("phi"@ != "alloc-cons"@);
    assert("phi"@ != "alloc-closure"@);
    assert("phi"@ != "call-known"@);
    assert("phi"@ != "call"@);
    assert("phi"@ != "deref"@);
    assert("phi"@ != "def-var"@);
    assert("phi"@ != "set!"@);
    assert("phi"@ != "throw"@);
    assert("recur"@[0] != "const"@[0]);
    assert("recur"@ != "const"@);
    assert("recur"@ != "load-local"@);
    assert("recur"@ != "load-global"@);
    assert("recur"@ != "alloc-vector"@);
    assert("recur"@ != "alloc-map"@);
    assert("recur"@ != "alloc-set"@);
    assert("recur"@ != "alloc-list"@);
    assert("recur"@ != "alloc-cons"@);
    assert("recur"@ != "alloc-closure"@);
    assert("recur"@ != "call-known"@);
    assert("recur"@ != "call"@);
    assert("recur"@[0] != "deref"@[0]);
    assert("recur"@ != "deref"@);
    assert("recur"@ != "def-var"@);
    assert("recur"@ != "set!"@);
    assert("recur"@[0] != "throw"@[0]);
    assert("recur"@ != "throw"@);
    assert("recur"@ != "phi"@);
    assert("source-loc"@ != "const"@);
    assert("source-loc"@[0] != "load-local"@[0]);
    assert("source-loc"@ != "load-local"@);
    assert("source-loc"@ != "load-global"@);
    assert("source-loc"@ != "alloc-vector"@);
    assert("source-loc"@ != "alloc-map"@);
    assert("source-loc"@ != "alloc-set"@);
    assert("source-loc"@[0] != "alloc-list"@[0]);
    assert("source-loc"@ != "alloc-list"@);
    assert("source-loc"@[0] != "alloc-cons"@[0]);
    assert("source-loc"@ != "alloc-cons"@);
    assert("source-loc"@ != "alloc-closure"@);
    assert("source-loc"@[0] != "call-known"@[0]);
    assert("source-loc"@ != "call-known"@);
    assert("source-loc"@ != "call"@);
    assert("source-loc"@ != "deref"@);
    assert("source-loc"@ != "def-var"@);
    assert("source-loc"@ != "set!"@);
    assert("source-loc"@ != "throw"@);
    assert("source-loc"@ != "phi"@);
    assert("source-loc"@ != "recur"@);
}

/// A value that stands for an instruction is read as that instruction: every operand is the one under
/// its own name.
pub proof fn instructions_are_read(v: Value, inst: InstView)
    requires
        is_inst(v, inst),
    ensures
        ir_convert::to_inst(v) == Ok::<InstView, ir_convert::ConvView>(inst),
{
    operations_differ(v->Dict_0@);
    match inst {
        InstView::Const(d, c) => {
            operation(v, "const"@);
            number_is_read(v, "dst"@, d.0);
            let x = choose|x: Value| #[trigger] says(v, "value"@, x) && is_const(x, c);
            said(v, "value"@, x);
            constants_are_read(x, c);
        },
        InstView::LoadLocal(d, n) => {
            operation(v, "load-local"@);
            number_is_read(v, "dst"@, d.0);
            text_is_read(v, "name"@, n);
        },
        InstView::LoadGlobal(d, ns, n) => {
            operation(v, "load-global"@);
            number_is_read(v, "dst"@, d.0);
            text_is_read(v, "ns"@, ns);
            text_is_read(v, "name"@, n);
        },
        InstView::AllocVector(d, vs) => {
            operation(v, "alloc-vector"@);
            number_is_read(v, "dst"@, d.0);
            numbers_are_read(v, "elems"@, vs);
        },
        InstView::AllocSet(d, vs) => {
            operation(v, "alloc-set"@);
            number_is_read(v, "dst"@, d.0);
            numbers_are_read(v, "elems"@, vs);
        },
        InstView::AllocList(d, vs) => {
            operation(v, "alloc-list"@);
            number_is_read(v, "dst"@, d.0);
            numbers_are_read(v, "elems"@, vs);
        },
        InstView::AllocMap(d, ps) => {
            operation(v, "alloc-map"@);
            number_is_read(v, "dst"@, d.0);
            let xs = choose|xs: Seq<Value>| #[trigger] items(v, "pairs"@, xs) && are_pairs(xs, ps);
            items_are_read(v, "pairs"@, xs);
            pairs_are(xs, ps, 0);
            assert(ps.take(0) =~= Seq::empty());
        },
        InstView::AllocCons(d, a, b) => {
            operation(v, "alloc-cons"@);
            number_is_read(v, "dst"@, d.0);
            number_is_read(v, "head"@, a.0);
            number_is_read(v, "tail"@, b.0);
        },
        InstView::AllocClosure(d, t, vs) => {
            operation(v, "alloc-closure"@);
            number_is_read(v, "dst"@, d.0);
            numbers_are_read(v, "captures"@, vs);
            name_is_read(v, "op"@, "alloc-closure"@);
            maybe_text_is_read(v, "closure-name"@, t.name);
            texts_are_read(v, "arity-fn-names"@, t.arity_fn_names);
            counts_are_read(v, "param-counts"@, t.param_counts);
            texts_are_read(v, "capture-names"@, t.capture_names);
            let u = TemplateView {
                name: t.name,
                arity_fn_names: t.arity_fn_names,
                param_counts: t.param_counts,
                is_variadic: Seq::new(t.arity_fn_names.len(), |i: int| false),
                capture_names: t.capture_names,
                body_forms: Seq::empty(),
            };
            assert(t.body_forms =~= u.body_forms);
            assert(t == u);
            assert(ir_convert::template_of(v->Dict_0@) == Ok::<TemplateView, ir_convert::ConvView>(u));
        },
        InstView::CallKnown(d, kf, vs) => {
            operation(v, "call-known"@);
            number_is_read(v, "dst"@, d.0);
            name_is_read(v, "func"@, known_name(kf)->0);
            known_functions_are_read(kf);
            numbers_are_read(v, "args"@, vs);
        },
        InstView::Call(d, f, vs) => {
            operation(v, "call"@);
            number_is_read(v, "dst"@, d.0);
            number_is_read(v, "callee"@, f.0);
            numbers_are_read(v, "args"@, vs);
        },
        InstView::Deref(d, a) => {
            operation(v, "deref"@);
            number_is_read(v, "dst"@, d.0);
            number_is_read(v, "src"@, a.0);
        },
        InstView::DefVar(d, ns, n, a) => {
            operation(v, "def-var"@);
            number_is_read(v, "dst"@, d.0);
            text_is_read(v, "ns"@, ns);
            text_is_read(v, "name"@, n);
            number_is_read(v, "value"@, a.0);
        },
        InstView::SetBang(a, b) => {
            operation(v, "set!"@);
            number_is_read(v, "var"@, a.0);
            number_is_read(v, "value"@, b.0);
        },
        InstView::Throw(a) => {
            operation(v, "throw"@);
            number_is_read(v, "value"@, a.0);
        },
        InstView::Phi(d, es) => {
            operation(v, "phi"@);
            number_is_read(v, "dst"@, d.0);
            let xs = choose|xs: Seq<Value>| #[trigger] items(v, "entries"@, xs) && are_entries(xs, es);
            items_are_read(v, "entries"@, xs);
            entries_are(xs, es, 0);
            assert(es.take(0) =~= Seq::empty());
        },
        InstView::Recur(vs) => {
            operation(v, "recur"@);
            numbers_are_read(v, "args"@, vs);
        },
        InstView::SourceLoc(p) => {
            operation(v, "source-loc"@);
            text_is_read(v, "file"@, p.file);
            number_is_read(v, "line"@, p.line);
            number_is_read(v, "col"@, p.col);
            assert(p == (SpanView { file: p.file, start: 0, end: 0, line: p.line, col: p.col }));
        },
        _ => {},
    }
}

/// A value that stands for the end of a block is read as that end: a branch goes to the block under
/// `:then-block` and to the one under `:else-block`.
pub proof fn ends_are_read(v: Value, t: TermView)
    requires
        is_end(v, t),
    ensures
        ir_convert::to_terminator(v) == Ok::<TermView, ir_convert::ConvView>(t),
{
    reveal_strlit("jump");
    reveal_strlit("branch");
    reveal_strlit("return");
    reveal_strlit("recur-jump");
    reveal_strlit("unreachable");
    assert("jump"@.len() == 4);
    assert("branch"@.len() == 6);
    assert("return"@.len() == 6);
    assert("recur-jump"@.len() == 10);
    assert("unreachable"@.len() == 11);
    assert("branch"@ != "jump"@);
    assert("return"@ != "jump"@);
    assert("return"@[0] != "branch"@[0]);
    assert("return"@ != "branch"@);
    assert("recur-jump"@ != "jump"@);
    assert("recur-jump"@ != "branch"@);
    assert("recur-jump"@ != "return"@);
    assert("unreachable"@ != "jump"@);
    assert("unreachable"@ != "branch"@);
    assert("unreachable"@ != "return"@);
    assert("unreachable"@ != "recur-jump"@);
    match t {
        TermView::Jump(b) => {
            operation(v, "jump"@);
            number_is_read(v, "target"@, b.0);
        },
        TermView::Branch(c, a, b) => {
            operation(v, "branch"@);
            number_is_read(v, "cond"@, c.0);
            number_is_read(v, "then-block"@, a.0);
            number_is_read(v, "else-block"@, b.0);
        },
        TermView::Return(a) => {
            operation(v, "return"@);
            number_is_read(v, "var"@, a.0);
        },
        TermView::RecurJump(b, vs) => {
            operation(v, "recur-jump"@);
            number_is_read(v, "target"@, b.0);
            numbers_are_read(v, "args"@, vs);
        },
        TermView::Unreachable => operation(v, "unreachable"@),
    }
}

proof fn insts_are(xs: Seq<Value>, insts: Seq<InstView>, i: int)
    requires
        are_insts(xs, insts),
        0 <= i <= xs.len(),
    ensures
        ir_convert::to_insts(xs, i, insts.take(i)) == Ok::<Seq<InstView>, ir_convert::ConvView>(insts),
    decreases xs.len() - i,
{
    if i < xs.len() {
        instructions_are_read(xs[i], insts[i]);
        assert(insts.take(i).push(insts[i]) =~= insts.take(i + 1));
        insts_are(xs, insts, i + 1);
    } else {
        assert(insts.take(i) =~= insts);
    }
}

/// A value that stands for a block is read as that block.
pub proof fn blocks_are_read(v: Value, b: BlockView)
    requires
        is_block(v, b),
    ensures
        ir_convert::to_block(v) == Ok::<BlockView, ir_convert::ConvView>(b),
{
    number_is_read(v, "id"@, b.id.0);
    let ps = choose|xs: Seq<Value>| #[trigger] items(v, "phis"@, xs) && are_insts(xs, b.phis);
    let xs = choose|xs: Seq<Value>| #[trigger] items(v, "insts"@, xs) && are_insts(xs, b.insts);
    let t = choose|x: Value| #[trigger] says(v, "terminator"@, x) && is_end(x, b.terminator);
    items_are_read(v, "phis"@, ps);
    items_are_read(v, "insts"@, xs);
    insts_are(ps, b.phis, 0);
    insts_are(xs, b.insts, 0);
    assert(b.phis.take(0) =~= Seq::empty());
    assert(b.insts.take(0) =~= Seq::empty());
    said(v, "terminator"@, t);
    ends_are_read(t, b.terminator);
    assert(ir_convert::to_block(v) == Ok::<BlockView, ir_convert::ConvView>(BlockView { id: b.id, phis: b.phis, insts: b.insts, terminator: b.terminator }));
}

proof fn blocks_are(xs: Seq<Value>, bs: Seq<BlockView>, i: int)
    requires
        are_blocks(xs, bs),
        0 <= i <= xs.len(),
    ensures
        ir_convert::to_blocks(xs, i, bs.take(i)) == Ok::<Seq<BlockView>, ir_convert::ConvView>(bs),
    decreases xs.len() - i,
{
    if i < xs.len() {
        blocks_are_read(xs[i], bs[i]);
        assert(bs.take(i).push(bs[i]) =~= bs.take(i + 1));
        blocks_are(xs, bs, i + 1);
    } else {
        assert(bs.take(i) =~= bs);
    }
}

proof fn head_is_read(v: Value, f: FunctionView)
    requires
        is_head(v, f),
    ensures
        v is Dict,
        ir_convert::function_head(v->Dict_0@) == Ok::<FunctionView, ir_convert::ConvView>(bare(f)),
{
    maybe_text_is_read(v, "name"@, f.name);
    number_is_read(v, "next-var"@, f.next_var);
    number_is_read(v, "next-block"@, f.next_block);
    let ps = choose|xs: Seq<Value>| #[trigger] items(v, "params"@, xs) && are_params(xs, f.params);
    items_are_read(v, "params"@, ps);
    params_are(ps, f.params, 0);
    assert(f.params.take(0) =~= Seq::empty());
    let bs = choose|xs: Seq<Value>| #[trigger] items(v, "blocks"@, xs) && are_blocks(xs, f.blocks);
    items_are_read(v, "blocks"@, bs);
    blocks_are(bs, f.blocks, 0);
    assert(f.blocks.take(0) =~= Seq::empty());
    let x = choose|x: Value| #[trigger] says(v, "blocks"@, x) && is_items(x, bs);
    said(v, "blocks"@, x);
}

spec fn are_functions(xs: Seq<Value>, f: FunctionView) -> bool {
    xs.len() == f.subfunctions.len() && forall|i: int| 0 <= i < f.subfunctions.len() ==> is_function(xs[i], #[trigger] f.subfunctions[i])
}

/// A value that stands for a function is read as that function, with those inside it.
pub proof fn functions_are_read(v: Value, f: FunctionView)
    requires
        is_function(v, f),
    ensures
        ir_convert::to_function(v) == Ok::<FunctionView, ir_convert::ConvView>(f),
    decreases f, 0int,
{
    assert(is_head(v, f));
    head_is_read(v, f);
    let m = v->Dict_0@;
    let head = bare(f);
    assert(f.local_seed_reprs =~= head.local_seed_reprs);
    assert(f.pins =~= head.pins);
    let none: Seq<FunctionView> = Seq::empty();
    assert(f == FunctionView { subfunctions: f.subfunctions, ..head });
    if f.subfunctions.len() == 0 && is_silent(v, "subfunctions"@) {
        silent(v, "subfunctions"@);
        assert(f.subfunctions =~= none);
    } else {
        let xs = choose|xs: Seq<Value>| #[trigger] items(v, "subfunctions"@, xs) && are_functions(xs, f);
        assert(items(v, "subfunctions"@, xs) && are_functions(xs, f));
        let x = choose|x: Value| #[trigger] says(v, "subfunctions"@, x) && is_items(x, xs);
        said(v, "subfunctions"@, x);
        functions_are(xs, f, xs.len() as int);
        assert(xs.take(xs.len() as int) =~= xs);
        assert(f.subfunctions.take(xs.len() as int) =~= f.subfunctions);
    }
}

proof fn functions_are(xs: Seq<Value>, f: FunctionView, n: int)
    requires
        xs.len() == f.subfunctions.len(),
        0 <= n <= xs.len(),
        forall|i: int| 0 <= i < f.subfunctions.len() ==> is_function(xs[i], #[trigger] f.subfunctions[i]),
    ensures
        ir_convert::to_functions(xs.take(n)) == Ok::<Seq<FunctionView>, ir_convert::ConvView>(f.subfunctions.take(n)),
    decreases f.subfunctions, n,
{
    if n > 0 {
        functions_are(xs, f, n - 1);
        assert(is_function(xs[n - 1], f.subfunctions[n - 1]));
        functions_are_read(xs[n - 1], f.subfunctions[n - 1]);
        assert(xs.take(n).drop_last() =~= xs.take(n - 1));
        assert(f.subfunctions.take(n) =~= f.subfunctions.take(n - 1).push(f.subfunctions[n - 1]));
    } else {
        assert(xs.take(0) =~= Seq::empty());
        assert(f.subfunctions.take(0) =~= Seq::empty());
    }
}

} // verus!
