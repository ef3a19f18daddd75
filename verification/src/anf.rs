//! Lowering to A-normal form: source forms become instructions in which every intermediate result
//! has a name, and control flow becomes basic blocks.
use crate::form;
use crate::form::{copy_form, Form, FormKind};
use crate::ir;
use crate::ir::{Block, BlockId, BlockView, ClosureTemplate, Const, ConstView, FunctionView, Inst, InstView, IrFunction, KnownFn, TemplateView, TermView, Terminator, VarId};
use crate::text;
use crate::text::{base_name, rsplit_once, same};
use vstd::prelude::*;
use vstd::string::*;

verus! {

/// Why a form could not be lowered.
#[derive(Debug)]
pub enum LowerError {
    /// A form that has no lowering.
    Unsupported(String),
    /// A form with the wrong shape.
    Malformed(String),
}

/// Why a form could not be lowered.
pub enum LowerErrorView {
    Unsupported(Seq<char>),
    Malformed(Seq<char>),
}

impl View for LowerError {
    type V = LowerErrorView;

    open spec fn view(&self) -> LowerErrorView {
        match *self {
            LowerError::Unsupported(t) => LowerErrorView::Unsupported(t@),
            LowerError::Malformed(t) => LowerErrorView::Malformed(t@),
        }
    }
}

impl LowerError {
    /// The error in words.
    pub fn message(&self) -> (r: String)
        ensures
            r@ == (match self@ {
                LowerErrorView::Unsupported(t) => "unsupported form: "@ + t,
                LowerErrorView::Malformed(t) => "malformed form: "@ + t,
            }),
    {
        match self {
            LowerError::Unsupported(t) => "unsupported form: ".to_owned().concat(t.as_str()),
            LowerError::Malformed(t) => "malformed form: ".to_owned().concat(t.as_str()),
        }
    }
}

/// The known function behind a name without its namespace.
pub open spec fn known_base(base: Seq<char>) -> Option<KnownFn> {
    if base == "vector"@ {
        Some(KnownFn::Vector)
    } else if base == "hash-map"@ {
        Some(KnownFn::HashMap)
    } else if base == "hash-set"@ {
        Some(KnownFn::HashSet)
    } else if base == "list"@ {
        Some(KnownFn::List)
    } else if base == "assoc"@ {
        Some(KnownFn::Assoc)
    } else if base == "dissoc"@ {
        Some(KnownFn::Dissoc)
    } else if base == "conj"@ {
        Some(KnownFn::Conj)
    } else if base == "disj"@ {
        Some(KnownFn::Disj)
    } else if base == "get"@ {
        Some(KnownFn::Get)
    } else if base == "nth"@ {
        Some(KnownFn::Nth)
    } else if base == "count"@ {
        Some(KnownFn::Count)
    } else if base == "contains?"@ {
        Some(KnownFn::Contains)
    } else if base == "transient"@ {
        Some(KnownFn::Transient)
    } else if base == "assoc!"@ {
        Some(KnownFn::AssocBang)
    } else if base == "conj!"@ {
        Some(KnownFn::ConjBang)
    } else if base == "persistent!"@ {
        Some(KnownFn::PersistentBang)
    } else if base == "first"@ {
        Some(KnownFn::First)
    } else if base == "rest"@ {
        Some(KnownFn::Rest)
    } else if base == "next"@ {
        Some(KnownFn::Next)
    } else if base == "cons"@ {
        Some(KnownFn::Cons)
    } else if base == "seq"@ {
        Some(KnownFn::ToSeq)
    } else if base == "lazy-seq"@ {
        Some(KnownFn::LazySeq)
    } else if base == "+"@ {
        Some(KnownFn::Add)
    } else if base == "-"@ {
        Some(KnownFn::Sub)
    } else if base == "*"@ {
        Some(KnownFn::Mul)
    } else if base == "/"@ {
        Some(KnownFn::Div)
    } else if base == "rem"@ {
        Some(KnownFn::Rem)
    } else if base == "mod"@ {
        Some(KnownFn::Rem)
    } else if base == "="@ {
        Some(KnownFn::Eq)
    } else if base == "<"@ {
        Some(KnownFn::Lt)
    } else if base == ">"@ {
        Some(KnownFn::Gt)
    } else if base == "<="@ {
        Some(KnownFn::Lte)
    } else if base == ">="@ {
        Some(KnownFn::Gte)
    } else if base == "nil?"@ {
        Some(KnownFn::IsNil)
    } else if base == "seq?"@ {
        Some(KnownFn::IsSeq)
    } else if base == "vector?"@ {
        Some(KnownFn::IsVector)
    } else if base == "map?"@ {
        Some(KnownFn::IsMap)
    } else if base == "identical?"@ {
        Some(KnownFn::Identical)
    } else if base == "str"@ {
        Some(KnownFn::Str)
    } else if base == "deref"@ {
        Some(KnownFn::Deref)
    } else if base == "println"@ {
        Some(KnownFn::Println)
    } else if base == "pr"@ {
        Some(KnownFn::Pr)
    } else if base == "apply"@ {
        Some(KnownFn::Apply)
    } else {
        None
    }
}

/// The known function behind a symbol.
pub open spec fn known_fn(name: Seq<char>) -> Option<KnownFn> {
    known_base(text::after_last(name, '/'))
}

/// The state of a lowering.
pub struct LowerView {
    pub name: Option<Seq<char>>,
    pub params: Seq<(Seq<char>, VarId)>,
    /// The finished blocks.
    pub blocks: Seq<BlockView>,
    pub next_var: u32,
    pub next_block: u32,
    /// The block under construction, and its instructions.
    pub current: BlockId,
    pub insts: Seq<InstView>,
    /// The scopes, outermost first; in each, the names in the order in which they were bound.
    pub locals: Seq<Seq<(Seq<char>, VarId)>>,
    pub ns: Seq<char>,
    /// The enclosing loops, outermost first, with the values of their phis.
    pub headers: Seq<(BlockId, Seq<VarId>)>,
}

pub type Lowered = Result<(LowerView, VarId), LowerErrorView>;

/// A new value.
pub open spec fn fresh_var(s: LowerView) -> Lowered {
    if s.next_var == u32::MAX {
        Err(LowerErrorView::Unsupported("more values than a function can hold"@))
    } else {
        Ok((LowerView { next_var: (s.next_var + 1) as u32, ..s }, VarId(s.next_var)))
    }
}

/// A new block.
pub open spec fn fresh_block(s: LowerView) -> Result<(LowerView, BlockId), LowerErrorView> {
    if s.next_block == u32::MAX {
        Err(LowerErrorView::Unsupported("more blocks than a function can hold"@))
    } else {
        Ok((LowerView { next_block: (s.next_block + 1) as u32, ..s }, BlockId(s.next_block)))
    }
}

/// One more instruction in the block under construction.
pub open spec fn emit(s: LowerView, inst: InstView) -> LowerView {
    LowerView { insts: s.insts.push(inst), ..s }
}

/// A new value, and the instruction that defines it.
pub open spec fn emit_value(s: LowerView, inst: spec_fn(VarId) -> InstView) -> Lowered {
    match fresh_var(s) {
        Err(e) => Err(e),
        Ok((s1, dst)) => Ok((emit(s1, inst(dst)), dst)),
    }
}

pub open spec fn emit_const(s: LowerView, c: ConstView) -> Lowered {
    emit_value(s, |dst: VarId| InstView::Const(dst, c))
}

/// The phis among `insts`, or the others, in their order.
pub open spec fn select(insts: Seq<InstView>, phis: bool) -> Seq<InstView>
    decreases insts.len(),
{
    if insts.len() == 0 {
        Seq::empty()
    } else {
        let rest = select(insts.drop_last(), phis);
        if (insts.last() is Phi) == phis { rest.push(insts.last()) } else { rest }
    }
}

/// Ends the block under construction: its phis go in front.
pub open spec fn finish(s: LowerView, terminator: TermView) -> LowerView {
    LowerView {
        blocks: s.blocks.push(BlockView {
            id: s.current,
            phis: select(s.insts, true),
            insts: select(s.insts, false),
            terminator,
        }),
        insts: Seq::empty(),
        ..s
    }
}

/// Goes on in block `id`.
pub open spec fn start(s: LowerView, id: BlockId) -> LowerView {
    LowerView { current: id, ..s }
}

pub open spec fn push_scope(s: LowerView) -> LowerView {
    LowerView { locals: s.locals.push(Seq::empty()), ..s }
}

pub open spec fn pop_scope(s: LowerView) -> LowerView {
    if s.locals.len() == 0 { s } else { LowerView { locals: s.locals.drop_last(), ..s } }
}

pub open spec fn pop_header(s: LowerView) -> LowerView {
    if s.headers.len() == 0 { s } else { LowerView { headers: s.headers.drop_last(), ..s } }
}

/// The position, from `i` on, of `name` in a scope; the number of names where it is not there.
pub open spec fn name_at(scope: Seq<(Seq<char>, VarId)>, name: Seq<char>, i: int) -> int
    decreases scope.len() - i,
{
    if i < 0 || i >= scope.len() {
        scope.len() as int
    } else if scope[i].0 == name {
        i
    } else {
        name_at(scope, name, i + 1)
    }
}

/// Binds `name` in the innermost scope, in place of what it was bound to there.
pub open spec fn bind(s: LowerView, name: Seq<char>, v: VarId) -> LowerView {
    if s.locals.len() == 0 {
        s
    } else {
        let scope = s.locals.last();
        let i = name_at(scope, name, 0);
        let scope2 = if i < scope.len() { scope.update(i, (name, v)) } else { scope.push((name, v)) };
        LowerView { locals: s.locals.drop_last().push(scope2), ..s }
    }
}

/// What `name` is bound to in the first `n` scopes, innermost first.
pub open spec fn lookup(locals: Seq<Seq<(Seq<char>, VarId)>>, name: Seq<char>, n: int) -> Option<VarId>
    decreases n,
{
    if n <= 0 || n > locals.len() {
        None
    } else {
        let scope = locals[n - 1];
        let i = name_at(scope, name, 0);
        if i < scope.len() { Some(scope[i].1) } else { lookup(locals, name, n - 1) }
    }
}

/// A symbol: a local, or else a global of its own namespace or the current one.
pub open spec fn lower_symbol(s: LowerView, name: Seq<char>) -> Lowered {
    match lookup(s.locals, name, s.locals.len() as int) {
        Some(v) => Ok((s, v)),
        None => match text::before_last(name, '/') {
            Some(ns) => emit_value(s, |dst: VarId| InstView::LoadGlobal(dst, ns, text::after_last(name, '/'))),
            None => emit_value(s, |dst: VarId| InstView::LoadGlobal(dst, s.ns, name)),
        },
    }
}

/// The names of a scope from `i` on that are not yet captured, with their values.
pub open spec fn capture_scope(scope: Seq<(Seq<char>, VarId)>, i: int, names: Seq<Seq<char>>, vars: Seq<VarId>) -> (Seq<Seq<char>>, Seq<VarId>)
    decreases scope.len() - i,
{
    if i < 0 || i >= scope.len() {
        (names, vars)
    } else if names.contains(scope[i].0) {
        capture_scope(scope, i + 1, names, vars)
    } else {
        capture_scope(scope, i + 1, names.push(scope[i].0), vars.push(scope[i].1))
    }
}

/// What a closure captures: every name in scope, outermost first, once each.
pub open spec fn capture_all(locals: Seq<Seq<(Seq<char>, VarId)>>, i: int, names: Seq<Seq<char>>, vars: Seq<VarId>) -> (Seq<Seq<char>>, Seq<VarId>)
    decreases locals.len() - i,
{
    if i < 0 || i >= locals.len() {
        (names, vars)
    } else {
        let (names1, vars1) = capture_scope(locals[i], 0, names, vars);
        capture_all(locals, i + 1, names1, vars1)
    }
}

/// A closure over everything in scope, with the forms from `from` on as its source.
pub open spec fn lower_closure(s: LowerView, name: Option<Seq<char>>, forms: Seq<Form>, from: int) -> Lowered {
    let (names, vars) = capture_all(s.locals, 0, Seq::empty(), Seq::empty());
    emit_value(s, |dst: VarId| InstView::AllocClosure(
        dst,
        TemplateView {
            name,
            arity_fn_names: Seq::empty(),
            param_counts: Seq::empty(),
            is_variadic: Seq::empty(),
            capture_names: names,
            body_forms: form::forms_view(forms.subrange(from, forms.len() as int)),
        },
        vars,
    ))
}

/// `fn`: an optional name, then the source.
pub open spec fn lower_fn(s: LowerView, forms: Seq<Form>, a: int) -> Lowered {
    if a >= forms.len() {
        Err(LowerErrorView::Malformed("fn* requires arguments"@))
    } else {
        match forms[a].kind {
            FormKind::Symbol(name) => lower_closure(s, Some(name@), forms, a + 1),
            _ => lower_closure(s, None, forms, a),
        }
    }
}

/// The phi at `i` of the block that a jump back goes to, with one more input.
pub open spec fn feed_phi(phi: InstView, from: BlockId, args: Seq<VarId>, i: int) -> InstView {
    match phi {
        InstView::Phi(dst, entries) => if i < args.len() { InstView::Phi(dst, entries.push((from, args[i]))) } else { phi },
        _ => phi,
    }
}

/// The position, from `i` on, of the finished block `id`; their number where it is not finished.
pub open spec fn finished_at(blocks: Seq<BlockView>, id: BlockId, i: int) -> int
    decreases blocks.len() - i,
{
    if i < 0 || i >= blocks.len() {
        blocks.len() as int
    } else if blocks[i].id == id {
        i
    } else {
        finished_at(blocks, id, i + 1)
    }
}

/// The finished blocks, with the arguments of a jump back from `from` fed to the phis of `header`.
pub open spec fn feed_header(blocks: Seq<BlockView>, header: BlockId, from: BlockId, args: Seq<VarId>) -> Seq<BlockView> {
    let h = finished_at(blocks, header, 0);
    if h < blocks.len() {
        blocks.update(h, BlockView {
            phis: Seq::new(blocks[h].phis.len(), |i: int| feed_phi(blocks[h].phis[i], from, args, i)),
            ..blocks[h]
        })
    } else {
        blocks
    }
}

/// Ends the block under construction without a way out of it, and goes on in a block that nothing
/// leads to.
pub open spec fn dead_end(s: LowerView, terminator: TermView) -> Lowered {
    match fresh_block(finish(s, terminator)) {
        Err(e) => Err(e),
        Ok((s1, b)) => emit_const(start(s1, b), ConstView::Nil),
    }
}

/// The name of the kind of a form.
pub open spec fn kind_label(k: FormKind) -> Seq<char> {
    match k {
        FormKind::BigInt(_) => "BigInt"@,
        FormKind::BigDecimal(_) => "BigDecimal"@,
        FormKind::Ratio(_) => "Ratio"@,
        FormKind::Regex(_) => "Regex"@,
        FormKind::AutoKeyword(_) => "AutoKeyword"@,
        FormKind::AnonFn(_) => "AnonFn"@,
        FormKind::Quote(_) => "Quote"@,
        FormKind::SyntaxQuote(_) => "SyntaxQuote"@,
        FormKind::Unquote(_) => "Unquote"@,
        FormKind::UnquoteSplice(_) => "UnquoteSplice"@,
        FormKind::Deref(_) => "Deref"@,
        FormKind::Var(_) => "Var"@,
        FormKind::Meta(_, _) => "Meta"@,
        FormKind::TaggedLiteral(_, _) => "TaggedLiteral"@,
        _ => "ReaderCond"@,
    }
}

/// A literal as a constant, where it is one.
pub open spec fn literal(k: FormKind) -> Option<ConstView> {
    match k {
        FormKind::Nil => Some(ConstView::Nil),
        FormKind::Bool(b) => Some(ConstView::Bool(b)),
        FormKind::Int(n) => Some(ConstView::Long(n)),
        FormKind::Float(d) => Some(ConstView::Double(d)),
        FormKind::Symbolic(d) => Some(ConstView::Double(d)),
        FormKind::Str(t) => Some(ConstView::Str(t@)),
        FormKind::Char(c) => Some(ConstView::Char(c)),
        FormKind::Keyword(t) => Some(ConstView::Keyword(t@)),
        _ => None,
    }
}

/// A quoted form: constants stand for themselves, collections are built.
pub open spec fn lower_quote(s: LowerView, f: Form) -> Lowered
    decreases f, 0int,
{
    match literal(f.kind) {
        Some(c) => emit_const(s, c),
        None => match f.kind {
            FormKind::Symbol(t) => emit_const(s, ConstView::Symbol(t@)),
            FormKind::Vector(fs) => match quote_all(s, fs@, 0, Seq::empty()) {
                Err(e) => Err(e),
                Ok((s1, vs)) => emit_value(s1, |dst: VarId| InstView::AllocVector(dst, vs)),
            },
            FormKind::List(fs) => match quote_all(s, fs@, 0, Seq::empty()) {
                Err(e) => Err(e),
                Ok((s1, vs)) => emit_value(s1, |dst: VarId| InstView::AllocList(dst, vs)),
            },
            FormKind::HashSet(fs) => match quote_all(s, fs@, 0, Seq::empty()) {
                Err(e) => Err(e),
                Ok((s1, vs)) => emit_value(s1, |dst: VarId| InstView::AllocSet(dst, vs)),
            },
            FormKind::Dict(fs) => if fs@.len() % 2 != 0 {
                Err(LowerErrorView::Malformed("map literal requires even number of forms"@))
            } else {
                match quote_all(s, fs@, 0, Seq::empty()) {
                    Err(e) => Err(e),
                    Ok((s1, vs)) => emit_value(s1, |dst: VarId| InstView::AllocMap(dst, pair_up(vs))),
                }
            },
            other => Err(LowerErrorView::Unsupported("quoted form: "@ + kind_label(other))),
        },
    }
}

/// The quoted forms from `i` on, behind `done`.
pub open spec fn quote_all(s: LowerView, fs: Seq<Form>, i: int, done: Seq<VarId>) -> Result<(LowerView, Seq<VarId>), LowerErrorView>
    decreases fs, fs.len() - i,
{
    if i < 0 || i >= fs.len() {
        Ok((s, done))
    } else {
        match lower_quote(s, fs[i]) {
            Err(e) => Err(e),
            Ok((s1, v)) => quote_all(s1, fs, i + 1, done.push(v)),
        }
    }
}

/// Keys and values in turn, as pairs.
pub open spec fn pair_up(vs: Seq<VarId>) -> Seq<(VarId, VarId)> {
    Seq::new(vs.len() / 2, |i: int| (vs[2 * i], vs[2 * i + 1]))
}

/// A form.
pub open spec fn lower_form(s: LowerView, f: Form) -> Lowered
    decreases f, 0int, 0int,
{
    match literal(f.kind) {
        Some(c) => emit_const(s, c),
        None => match f.kind {
            FormKind::Symbol(t) => lower_symbol(s, t@),
            FormKind::Vector(fs) => match lower_all(s, fs@, 0, Seq::empty()) {
                Err(e) => Err(e),
                Ok((s1, vs)) => emit_value(s1, |dst: VarId| InstView::AllocVector(dst, vs)),
            },
            FormKind::Dict(fs) => if fs@.len() % 2 != 0 {
                Err(LowerErrorView::Malformed("map literal requires even number of forms"@))
            } else {
                match lower_all(s, fs@, 0, Seq::empty()) {
                    Err(e) => Err(e),
                    Ok((s1, vs)) => emit_value(s1, |dst: VarId| InstView::AllocMap(dst, pair_up(vs))),
                }
            },
            FormKind::HashSet(fs) => match lower_all(s, fs@, 0, Seq::empty()) {
                Err(e) => Err(e),
                Ok((s1, vs)) => emit_value(s1, |dst: VarId| InstView::AllocSet(dst, vs)),
            },
            FormKind::List(fs) => if fs@.len() == 0 {
                emit_value(s, |dst: VarId| InstView::AllocList(dst, Seq::empty()))
            } else {
                lower_list(s, fs@)
            },
            FormKind::Quote(inner) => lower_quote(s, *inner),
            FormKind::Deref(inner) => match lower_form(s, *inner) {
                Err(e) => Err(e),
                Ok((s1, v)) => emit_value(s1, |dst: VarId| InstView::Deref(dst, v)),
            },
            FormKind::Meta(_, inner) => lower_form(s, *inner),
            FormKind::BigInt(_) => Err(LowerErrorView::Unsupported("BigInt literal"@)),
            FormKind::BigDecimal(_) => Err(LowerErrorView::Unsupported("BigDecimal literal"@)),
            FormKind::Ratio(_) => Err(LowerErrorView::Unsupported("Ratio literal"@)),
            FormKind::Regex(_) => Err(LowerErrorView::Unsupported("Regex literal"@)),
            FormKind::AutoKeyword(_) => Err(LowerErrorView::Unsupported("auto-keyword"@)),
            FormKind::SyntaxQuote(_) => Err(LowerErrorView::Unsupported("syntax-quote in IR"@)),
            FormKind::Unquote(_) => Err(LowerErrorView::Unsupported("unquote outside syntax-quote"@)),
            FormKind::UnquoteSplice(_) => Err(LowerErrorView::Unsupported("unquote-splice outside syntax-quote"@)),
            FormKind::Var(_) => Err(LowerErrorView::Unsupported("#'var in IR"@)),
            FormKind::AnonFn(_) => Err(LowerErrorView::Unsupported("#() should be expanded before IR lowering"@)),
            FormKind::TaggedLiteral(_, _) => Err(LowerErrorView::Unsupported("tagged literal"@)),
            _ => Err(LowerErrorView::Unsupported("reader conditional should be resolved before IR lowering"@)),
        },
    }
}

/// The forms from `i` on, behind `done`.
pub open spec fn lower_all(s: LowerView, fs: Seq<Form>, i: int, done: Seq<VarId>) -> Result<(LowerView, Seq<VarId>), LowerErrorView>
    decreases fs, fs.len() - i, 0int,
{
    if i < 0 || i >= fs.len() {
        Ok((s, done))
    } else {
        match lower_form(s, fs[i]) {
            Err(e) => Err(e),
            Ok((s1, v)) => lower_all(s1, fs, i + 1, done.push(v)),
        }
    }
}

/// The forms from `i` on in turn: the result is that of the last, or `last` where there is none.
pub open spec fn lower_rest(s: LowerView, fs: Seq<Form>, i: int, last: VarId) -> Lowered
    decreases fs, fs.len() - i, 0int,
{
    if i < 0 || i >= fs.len() {
        Ok((s, last))
    } else {
        match lower_form(s, fs[i]) {
            Err(e) => Err(e),
            Ok((s1, v)) => lower_rest(s1, fs, i + 1, v),
        }
    }
}

/// The forms from `a` on as a body: nil where there is none.
pub open spec fn lower_body(s: LowerView, fs: Seq<Form>, a: int) -> Lowered
    decreases fs, fs.len() - a, 1int,
{
    if a < 0 || a >= fs.len() {
        emit_const(s, ConstView::Nil)
    } else {
        lower_rest(s, fs, a, VarId(0))
    }
}

/// The form at `a`, or nil where there is none.
pub open spec fn lower_or_nil(s: LowerView, fs: Seq<Form>, a: int) -> Lowered
    decreases fs, 0int, 0int,
{
    if 0 <= a < fs.len() { lower_form(s, fs[a]) } else { emit_const(s, ConstView::Nil) }
}

pub open spec fn is_module_level(t: Seq<char>) -> bool {
    t == "ns"@ || t == "require"@ || t == "in-ns"@ || t == "alias"@ || t == "load-file"@
}

pub open spec fn is_not_lowered(t: Seq<char>) -> bool {
    t == "defprotocol"@ || t == "extend-type"@ || t == "extend-protocol"@ || t == "defmulti"@ || t == "defmethod"@
        || t == "defrecord"@ || t == "reify"@ || t == "binding"@ || t == "with-out-str"@ || t == "try"@ || t == "letfn"@
}

/// A list that is not empty: a special form or a call.
pub open spec fn lower_list(s: LowerView, fs: Seq<Form>) -> Lowered
    decreases fs, fs.len() as int, 2int,
{
    if fs.len() == 0 {
        Err(LowerErrorView::Malformed(""@))
    } else {
        match fs[0].kind {
            FormKind::Symbol(name) => {
                let t = name@;
                if t == "if"@ {
                    lower_if(s, fs)
                } else if t == "do"@ {
                    lower_body(s, fs, 1)
                } else if t == "let"@ || t == "let*"@ {
                    lower_let(s, fs)
                } else if t == "loop"@ || t == "loop*"@ {
                    lower_loop(s, fs)
                } else if t == "recur"@ {
                    lower_recur(s, fs)
                } else if t == "def"@ {
                    lower_def(s, fs)
                } else if t == "fn"@ || t == "fn*"@ {
                    lower_fn(s, fs, 1)
                } else if t == "quote"@ {
                    if fs.len() != 2 {
                        Err(LowerErrorView::Malformed("quote expects 1 argument"@))
                    } else {
                        lower_quote(s, fs[1])
                    }
                } else if t == "throw"@ {
                    lower_throw(s, fs)
                } else if t == "set!"@ {
                    lower_set_bang(s, fs)
                } else if is_module_level(t) {
                    Err(LowerErrorView::Unsupported(t + " (module-level only)"@))
                } else if is_not_lowered(t) {
                    Err(LowerErrorView::Unsupported(t + " (not yet in IR)"@))
                } else if t == "defn"@ {
                    lower_defn(s, fs)
                } else if t == "defmacro"@ || t == "defonce"@ {
                    Err(LowerErrorView::Unsupported(t + " (should be expanded before IR)"@))
                } else if t == "and"@ {
                    lower_and(s, fs, 1)
                } else if t == "or"@ {
                    lower_or(s, fs, 1)
                } else {
                    lower_call(s, fs)
                }
            },
            _ => lower_call(s, fs),
        }
    }
}

/// A call: of a known function by name, or of whatever the head yields.
pub open spec fn lower_call(s: LowerView, fs: Seq<Form>) -> Lowered
    decreases fs, fs.len() as int, 1int,
{
    if fs.len() == 0 {
        Err(LowerErrorView::Malformed(""@))
    } else {
        let known = match fs[0].kind {
            FormKind::Symbol(name) => known_fn(name@),
            _ => None,
        };
        match known {
            Some(kf) => match lower_all(s, fs, 1, Seq::empty()) {
                Err(e) => Err(e),
                Ok((s1, vs)) => emit_value(s1, |dst: VarId| InstView::CallKnown(dst, kf, vs)),
            },
            None => match lower_form(s, fs[0]) {
                Err(e) => Err(e),
                Ok((s1, callee)) => match lower_all(s1, fs, 1, Seq::empty()) {
                    Err(e) => Err(e),
                    Ok((s2, vs)) => emit_value(s2, |dst: VarId| InstView::Call(dst, callee, vs)),
                },
            },
        }
    }
}

/// The phi that joins two ways.
pub open spec fn join_two(s: LowerView, join: BlockId, a: (BlockId, VarId), b: (BlockId, VarId)) -> Lowered {
    emit_value(start(s, join), |dst: VarId| InstView::Phi(dst, seq![a, b]))
}

/// `if` with its test, and the branches, nil where they are missing.
pub open spec fn lower_if(s: LowerView, fs: Seq<Form>) -> Lowered
    decreases fs, fs.len() as int, 1int,
{
    if fs.len() < 2 || fs.len() > 4 {
        Err(LowerErrorView::Malformed("if expects 1-3 arguments"@))
    } else {
        match lower_form(s, fs[1]) {
            Err(e) => Err(e),
            Ok((s1, test)) => match fresh_block(s1) {
                Err(e) => Err(e),
                Ok((s2, then_block)) => match fresh_block(s2) {
                    Err(e) => Err(e),
                    Ok((s3, else_block)) => match fresh_block(s3) {
                        Err(e) => Err(e),
                        Ok((s4, join)) => {
                            let s5 = start(finish(s4, TermView::Branch(test, then_block, else_block)), then_block);
                            match lower_or_nil(s5, fs, 2) {
                                Err(e) => Err(e),
                                Ok((s6, then_val)) => {
                                    let then_exit = s6.current;
                                    let s7 = start(finish(s6, TermView::Jump(join)), else_block);
                                    match lower_or_nil(s7, fs, 3) {
                                        Err(e) => Err(e),
                                        Ok((s8, else_val)) => {
                                            let else_exit = s8.current;
                                            join_two(finish(s8, TermView::Jump(join)), join, (then_exit, then_val), (else_exit, else_val))
                                        },
                                    }
                                },
                            }
                        },
                    },
                },
            },
        }
    }
}

/// The bindings of a `let` from `i` on: names and values in turn.
pub open spec fn lower_bindings(s: LowerView, fs: Seq<Form>, i: int) -> Result<LowerView, LowerErrorView>
    decreases fs, fs.len() - i, 0int,
{
    if i < 0 || i + 1 >= fs.len() {
        Ok(s)
    } else {
        match fs[i].kind {
            FormKind::Symbol(name) => match lower_form(s, fs[i + 1]) {
                Err(e) => Err(e),
                Ok((s1, v)) => lower_bindings(bind(s1, name@, v), fs, i + 2),
            },
            _ => Err(LowerErrorView::Unsupported("destructuring in let (not yet in IR)"@)),
        }
    }
}

/// `let`: the bindings one after the other in a scope of their own, then the body.
pub open spec fn lower_let(s: LowerView, fs: Seq<Form>) -> Lowered
    decreases fs, fs.len() as int, 1int,
{
    if fs.len() < 2 {
        Err(LowerErrorView::Malformed("let requires a binding vector"@))
    } else {
        match fs[1].kind {
            FormKind::Vector(bs) => if bs@.len() % 2 != 0 {
                Err(LowerErrorView::Malformed("let requires even number of binding forms"@))
            } else {
                match lower_bindings(push_scope(s), bs@, 0) {
                    Err(e) => Err(e),
                    Ok(s1) => match lower_body(s1, fs, 2) {
                        Err(e) => Err(e),
                        Ok((s2, v)) => Ok((pop_scope(s2), v)),
                    },
                }
            },
            _ => Err(LowerErrorView::Malformed("let bindings must be a vector"@)),
        }
    }
}

/// The initial values of a loop from `i` on, behind the names and values in hand.
pub open spec fn lower_inits(s: LowerView, fs: Seq<Form>, i: int, names: Seq<Seq<char>>, vars: Seq<VarId>) -> Result<(LowerView, Seq<Seq<char>>, Seq<VarId>), LowerErrorView>
    decreases fs, fs.len() - i, 0int,
{
    if i < 0 || i + 1 >= fs.len() {
        Ok((s, names, vars))
    } else {
        match fs[i].kind {
            FormKind::Symbol(name) => match lower_form(s, fs[i + 1]) {
                Err(e) => Err(e),
                Ok((s1, v)) => lower_inits(s1, fs, i + 2, names.push(name@), vars.push(v)),
            },
            _ => Err(LowerErrorView::Unsupported("destructuring in loop (not yet in IR)"@)),
        }
    }
}

/// A phi for each loop variable from `i` on, fed from `init`, and bound to its name.
pub open spec fn loop_phis(s: LowerView, init: BlockId, names: Seq<Seq<char>>, vars: Seq<VarId>, i: int, done: Seq<VarId>) -> Result<(LowerView, Seq<VarId>), LowerErrorView>
    decreases names.len() - i,
{
    if i < 0 || i >= names.len() {
        Ok((s, done))
    } else {
        match emit_value(s, |dst: VarId| InstView::Phi(dst, seq![(init, vars[i])])) {
            Err(e) => Err(e),
            Ok((s1, p)) => loop_phis(bind(s1, names[i], p), init, names, vars, i + 1, done.push(p)),
        }
    }
}

/// `loop`: the initial values, a header block whose phis are the loop variables, the body, and an
/// exit block that takes the value of the body.
pub open spec fn lower_loop(s: LowerView, fs: Seq<Form>) -> Lowered
    decreases fs, fs.len() as int, 1int,
{
    if fs.len() < 2 {
        Err(LowerErrorView::Malformed("loop requires a binding vector"@))
    } else {
        match fs[1].kind {
            FormKind::Vector(bs) => if bs@.len() % 2 != 0 {
                Err(LowerErrorView::Malformed("loop requires even number of binding forms"@))
            } else {
                match lower_inits(s, bs@, 0, Seq::empty(), Seq::empty()) {
                    Err(e) => Err(e),
                    Ok((s1, names, vars)) => match fresh_block(s1) {
                        Err(e) => Err(e),
                        Ok((s2, header)) => {
                            let init = s2.current;
                            let s3 = push_scope(start(finish(s2, TermView::Jump(header)), header));
                            match loop_phis(s3, init, names, vars, 0, Seq::empty()) {
                                Err(e) => Err(e),
                                Ok((s4, phis)) => match lower_body(LowerView { headers: s4.headers.push((header, phis)), ..s4 }, fs, 2) {
                                    Err(e) => Err(e),
                                    Ok((s5, v)) => {
                                        let body_exit = s5.current;
                                        match fresh_block(pop_header(s5)) {
                                            Err(e) => Err(e),
                                            Ok((s7, exit)) => {
                                                let s8 = start(pop_scope(finish(s7, TermView::Jump(exit))), exit);
                                                emit_value(s8, |dst: VarId| InstView::Phi(dst, seq![(body_exit, v)]))
                                            },
                                        }
                                    },
                                },
                            }
                        },
                    },
                }
            },
            _ => Err(LowerErrorView::Malformed("loop bindings must be a vector"@)),
        }
    }
}

/// `recur`: back to the header of the innermost loop, with new values for its variables.
pub open spec fn lower_recur(s: LowerView, fs: Seq<Form>) -> Lowered
    decreases fs, fs.len() as int, 1int,
{
    if fs.len() == 0 {
        Err(LowerErrorView::Malformed(""@))
    } else {
        match lower_all(s, fs, 1, Seq::empty()) {
            Err(e) => Err(e),
            Ok((s1, args)) => if s1.headers.len() == 0 {
                Err(LowerErrorView::Malformed("recur outside of loop"@))
            } else {
                let header = s1.headers.last().0;
                let s2 = LowerView { blocks: feed_header(s1.blocks, header, s1.current, args), ..s1 };
                dead_end(s2, TermView::RecurJump(header, args))
            },
        }
    }
}

/// The name in a `def`, with or without metadata.
pub open spec fn def_name(k: FormKind) -> Option<Seq<char>> {
    match k {
        FormKind::Symbol(name) => Some(name@),
        FormKind::Meta(_, inner) => match inner.kind {
            FormKind::Symbol(name) => Some(name@),
            _ => None,
        },
        _ => None,
    }
}

/// `def`: a name of the current namespace, and its value, nil where it is missing.
pub open spec fn lower_def(s: LowerView, fs: Seq<Form>) -> Lowered
    decreases fs, fs.len() as int, 1int,
{
    if fs.len() < 2 {
        Err(LowerErrorView::Malformed("def requires a name"@))
    } else {
        match def_name(fs[1].kind) {
            None => Err(LowerErrorView::Malformed("def requires a symbol name"@)),
            Some(name) => match lower_or_nil(s, fs, 2) {
                Err(e) => Err(e),
                Ok((s1, v)) => emit_value(s1, |dst: VarId| InstView::DefVar(dst, s1.ns, name, v)),
            },
        }
    }
}

/// `defn`: a name, a docstring that is skipped, and the source of a function of that name.
pub open spec fn lower_defn(s: LowerView, fs: Seq<Form>) -> Lowered {
    if fs.len() < 2 {
        Err(LowerErrorView::Malformed("defn requires a name"@))
    } else {
        match fs[1].kind {
            FormKind::Symbol(name) => {
                let from: int = if fs.len() > 3 && fs[2].kind is Str { 3 } else { 2 };
                match lower_closure(s, Some(name@), fs, from) {
                    Err(e) => Err(e),
                    Ok((s1, v)) => emit_value(s1, |dst: VarId| InstView::DefVar(dst, s1.ns, name@, v)),
                }
            },
            _ => Err(LowerErrorView::Malformed("defn requires a symbol name"@)),
        }
    }
}

/// `throw`: nothing follows it.
pub open spec fn lower_throw(s: LowerView, fs: Seq<Form>) -> Lowered
    decreases fs, fs.len() as int, 1int,
{
    if fs.len() != 2 {
        Err(LowerErrorView::Malformed("throw expects 1 argument"@))
    } else {
        match lower_form(s, fs[1]) {
            Err(e) => Err(e),
            Ok((s1, v)) => dead_end(emit(s1, InstView::Throw(v)), TermView::Unreachable),
        }
    }
}

/// `set!`: the value is the result.
pub open spec fn lower_set_bang(s: LowerView, fs: Seq<Form>) -> Lowered
    decreases fs, fs.len() as int, 1int,
{
    if fs.len() != 3 {
        Err(LowerErrorView::Malformed("set! expects 2 arguments"@))
    } else {
        match lower_form(s, fs[1]) {
            Err(e) => Err(e),
            Ok((s1, var)) => match lower_form(s1, fs[2]) {
                Err(e) => Err(e),
                Ok((s2, v)) => Ok((emit(s2, InstView::SetBang(var, v)), v)),
            },
        }
    }
}

/// `and`: the forms from `a` on, up to the first that is false.
pub open spec fn lower_and(s: LowerView, fs: Seq<Form>, a: int) -> Lowered
    decreases fs, fs.len() - a, 1int,
{
    if a < 0 || a >= fs.len() {
        emit_const(s, ConstView::Bool(true))
    } else if a + 1 == fs.len() {
        lower_form(s, fs[a])
    } else {
        match lower_form(s, fs[a]) {
            Err(e) => Err(e),
            Ok((s1, first)) => match fresh_block(s1) {
                Err(e) => Err(e),
                Ok((s2, rest)) => match fresh_block(s2) {
                    Err(e) => Err(e),
                    Ok((s3, join)) => {
                        let first_exit = s3.current;
                        let s4 = start(finish(s3, TermView::Branch(first, rest, join)), rest);
                        match lower_and(s4, fs, a + 1) {
                            Err(e) => Err(e),
                            Ok((s5, v)) => join_two(finish(s5, TermView::Jump(join)), join, (first_exit, first), (s5.current, v)),
                        }
                    },
                },
            },
        }
    }
}

/// `or`: the forms from `a` on, up to the first that is true.
pub open spec fn lower_or(s: LowerView, fs: Seq<Form>, a: int) -> Lowered
    decreases fs, fs.len() - a, 1int,
{
    if a < 0 || a >= fs.len() {
        emit_const(s, ConstView::Nil)
    } else if a + 1 == fs.len() {
        lower_form(s, fs[a])
    } else {
        match lower_form(s, fs[a]) {
            Err(e) => Err(e),
            Ok((s1, first)) => match fresh_block(s1) {
                Err(e) => Err(e),
                Ok((s2, rest)) => match fresh_block(s2) {
                    Err(e) => Err(e),
                    Ok((s3, join)) => {
                        let first_exit = s3.current;
                        let s4 = start(finish(s3, TermView::Branch(first, join, rest)), rest);
                        match lower_or(s4, fs, a + 1) {
                            Err(e) => Err(e),
                            Ok((s5, v)) => join_two(finish(s5, TermView::Jump(join)), join, (first_exit, first), (s5.current, v)),
                        }
                    },
                },
            },
        }
    }
}

/// The parameters from `i` on: a value each, bound to its name.
pub open spec fn add_params(s: LowerView, names: Seq<String>, i: int) -> Result<LowerView, LowerErrorView>
    decreases names.len() - i,
{
    if i < 0 || i >= names.len() {
        Ok(s)
    } else {
        match fresh_var(s) {
            Err(e) => Err(e),
            Ok((s1, v)) => add_params(
                bind(LowerView { params: s1.params.push((names[i]@, v)), ..s1 }, names[i]@, v),
                names,
                i + 1,
            ),
        }
    }
}

/// The state in which a lowering starts: in an empty entry block, in one empty scope.
pub open spec fn initial(name: Option<Seq<char>>, ns: Seq<char>) -> LowerView {
    LowerView {
        name,
        params: Seq::empty(),
        blocks: Seq::empty(),
        next_var: 0,
        next_block: 1,
        current: BlockId(0),
        insts: Seq::empty(),
        locals: seq![Seq::empty()],
        ns,
        headers: Seq::empty(),
    }
}

/// The function that a lowering has built.
pub open spec fn built(s: LowerView) -> FunctionView {
    FunctionView {
        name: s.name,
        params: s.params,
        blocks: s.blocks,
        next_var: s.next_var,
        next_block: s.next_block,
        span: None,
        subfunctions: Seq::empty(),
        is_async: false,
        local_seed_reprs: Seq::empty(),
        pins: Seq::empty(),
    }
}

/// The scopes of a lowering.
pub open spec fn scopes_view(scopes: Seq<Vec<(String, VarId)>>) -> Seq<Seq<(Seq<char>, VarId)>> {
    scopes.map_values(|scope: Vec<(String, VarId)>| ir::params_view(scope@))
}

/// The loops of a lowering.
pub open spec fn headers_view(headers: Seq<(BlockId, Vec<VarId>)>) -> Seq<(BlockId, Seq<VarId>)> {
    headers.map_values(|h: (BlockId, Vec<VarId>)| (h.0, h.1@))
}

/// A step of a lowering yields what it should.
pub open spec fn agrees(r: Result<VarId, LowerError>, after: LowerView, want: Lowered) -> bool {
    match (r, want) {
        (Ok(v), Ok((s, w))) => after == s && v == w,
        (Err(e), Err(w)) => e@ == w,
        _ => false,
    }
}

/// A step of a lowering yields the values that it should.
pub open spec fn agrees_all(r: Result<Vec<VarId>, LowerError>, after: LowerView, want: Result<(LowerView, Seq<VarId>), LowerErrorView>) -> bool {
    match (r, want) {
        (Ok(vs), Ok((s, ws))) => after == s && vs@ == ws,
        (Err(e), Err(w)) => e@ == w,
        _ => false,
    }
}

/// A step of a lowering leaves the state that it should.
pub open spec fn agrees_state(r: Result<(), LowerError>, after: LowerView, want: Result<LowerView, LowerErrorView>) -> bool {
    match (r, want) {
        (Ok(_), Ok(s)) => after == s,
        (Err(e), Err(w)) => e@ == w,
        _ => false,
    }
}

/// A function: its parameters, its body, and the return of what that yields.
pub open spec fn lower_function(s: LowerView, params: Seq<String>, body: Seq<Form>) -> Result<FunctionView, LowerErrorView> {
    match add_params(s, params, 0) {
        Err(e) => Err(e),
        Ok(s1) => match lower_body(s1, body, 0) {
            Err(e) => Err(e),
            Ok((s2, v)) => Ok(built(finish(s2, TermView::Return(v)))),
        },
    }
}

/// The known function behind a name without its namespace.
fn resolve_base(base: &str) -> (r: Option<KnownFn>)
    ensures
        r == known_base(base@),
{
    if same(base, "vector") {
        Some(KnownFn::Vector)
    } else if same(base, "hash-map") {
        Some(KnownFn::HashMap)
    } else if same(base, "hash-set") {
        Some(KnownFn::HashSet)
    } else if same(base, "list") {
        Some(KnownFn::List)
    } else if same(base, "assoc") {
        Some(KnownFn::Assoc)
    } else if same(base, "dissoc") {
        Some(KnownFn::Dissoc)
    } else if same(base, "conj") {
        Some(KnownFn::Conj)
    } else if same(base, "disj") {
        Some(KnownFn::Disj)
    } else if same(base, "get") {
        Some(KnownFn::Get)
    } else if same(base, "nth") {
        Some(KnownFn::Nth)
    } else if same(base, "count") {
        Some(KnownFn::Count)
    } else if same(base, "contains?") {
        Some(KnownFn::Contains)
    } else if same(base, "transient") {
        Some(KnownFn::Transient)
    } else if same(base, "assoc!") {
        Some(KnownFn::AssocBang)
    } else if same(base, "conj!") {
        Some(KnownFn::ConjBang)
    } else if same(base, "persistent!") {
        Some(KnownFn::PersistentBang)
    } else if same(base, "first") {
        Some(KnownFn::First)
    } else if same(base, "rest") {
        Some(KnownFn::Rest)
    } else if same(base, "next") {
        Some(KnownFn::Next)
    } else if same(base, "cons") {
        Some(KnownFn::Cons)
    } else if same(base, "seq") {
        Some(KnownFn::ToSeq)
    } else if same(base, "lazy-seq") {
        Some(KnownFn::LazySeq)
    } else if same(base, "+") {
        Some(KnownFn::Add)
    } else if same(base, "-") {
        Some(KnownFn::Sub)
    } else if same(base, "*") {
        Some(KnownFn::Mul)
    } else if same(base, "/") {
        Some(KnownFn::Div)
    } else if same(base, "rem") {
        Some(KnownFn::Rem)
    } else if same(base, "mod") {
        Some(KnownFn::Rem)
    } else if same(base, "=") {
        Some(KnownFn::Eq)
    } else if same(base, "<") {
        Some(KnownFn::Lt)
    } else if same(base, ">") {
        Some(KnownFn::Gt)
    } else if same(base, "<=") {
        Some(KnownFn::Lte)
    } else if same(base, ">=") {
        Some(KnownFn::Gte)
    } else if same(base, "nil?") {
        Some(KnownFn::IsNil)
    } else if same(base, "seq?") {
        Some(KnownFn::IsSeq)
    } else if same(base, "vector?") {
        Some(KnownFn::IsVector)
    } else if same(base, "map?") {
        Some(KnownFn::IsMap)
    } else if same(base, "identical?") {
        Some(KnownFn::Identical)
    } else if same(base, "str") {
        Some(KnownFn::Str)
    } else if same(base, "deref") {
        Some(KnownFn::Deref)
    } else if same(base, "println") {
        Some(KnownFn::Println)
    } else if same(base, "pr") {
        Some(KnownFn::Pr)
    } else if same(base, "apply") {
        Some(KnownFn::Apply)
    } else {
        None
    }
}

/// The known function behind a symbol, whatever its namespace.
pub fn resolve_known_fn(name: &str) -> (r: Option<KnownFn>)
    ensures
        r == known_fn(name@),
{
    let base = base_name(name, '/');
    resolve_base(base.as_str())
}

/// Builds a function out of source forms.
pub struct AstLowering {
    func: IrFunction,
    current_block: BlockId,
    current_insts: Vec<Inst>,
    locals: Vec<Vec<(String, VarId)>>,
    current_ns: String,
    loop_headers: Vec<(BlockId, Vec<VarId>)>,
}

impl View for AstLowering {
    type V = LowerView;

    closed spec fn view(&self) -> LowerView {
        LowerView {
            name: ir::text_opt(self.func.name),
            params: ir::params_view(self.func.params@),
            blocks: ir::blocks_view(self.func.blocks@),
            next_var: self.func.next_var,
            next_block: self.func.next_block,
            current: self.current_block,
            insts: ir::insts_view(self.current_insts@),
            locals: scopes_view(self.locals@),
            ns: self.current_ns@,
            headers: headers_view(self.loop_headers@),
        }
    }
}

fn malformed(text: &str) -> (r: LowerError)
    ensures
        r@ == LowerErrorView::Malformed(text@),
{
    LowerError::Malformed(text.to_owned())
}

fn unsupported(text: &str) -> (r: LowerError)
    ensures
        r@ == LowerErrorView::Unsupported(text@),
{
    LowerError::Unsupported(text.to_owned())
}

/// The position of `name` in a scope, if it is bound there.
fn find_name(scope: &Vec<(String, VarId)>, name: &str) -> (r: Option<usize>)
    ensures
        match r {
            Some(i) => i < scope@.len() && i == name_at(ir::params_view(scope@), name@, 0),
            None => name_at(ir::params_view(scope@), name@, 0) == scope@.len(),
        },
{
    let mut i: usize = 0;
    while i < scope.len()
        invariant
            i <= scope@.len(),
            name_at(ir::params_view(scope@), name@, 0) == name_at(ir::params_view(scope@), name@, i as int),
        decreases scope@.len() - i,
    {
        if same(scope[i].0.as_str(), name) {
            return Some(i);
        }
        i += 1;
    }
    None
}

fn contains_text(names: &Vec<String>, name: &str) -> (r: bool)
    ensures
        r == ir::texts(names@).contains(name@),
{
    let mut i: usize = 0;
    while i < names.len()
        invariant
            i <= names@.len(),
            forall|k: int| 0 <= k < i ==> (#[trigger] ir::texts(names@)[k]) != name@,
        decreases names@.len() - i,
    {
        if same(names[i].as_str(), name) {
            assert(ir::texts(names@)[i as int] == name@);
            return true;
        }
        i += 1;
    }
    false
}

/// The literal as a constant, where it is one.
fn literal_of(k: &FormKind) -> (r: Option<Const>)
    ensures
        match r {
            Some(c) => literal(*k) == Some(c@),
            None => literal(*k) is None,
        },
{
    match k {
        FormKind::Nil => Some(Const::Nil),
        FormKind::Bool(b) => Some(Const::Bool(*b)),
        FormKind::Int(n) => Some(Const::Long(*n)),
        FormKind::Float(d) => Some(Const::Double(*d)),
        FormKind::Symbolic(d) => Some(Const::Double(*d)),
        FormKind::Str(t) => Some(Const::Str(t.clone())),
        FormKind::Char(c) => Some(Const::Char(*c)),
        FormKind::Keyword(t) => Some(Const::Keyword(t.clone())),
        _ => None,
    }
}

/// The name of the kind of a form that cannot be quoted.
fn label(k: &FormKind) -> (r: &'static str)
    ensures
        r@ == kind_label(*k),
{
    match k {
        FormKind::BigInt(_) => "BigInt",
        FormKind::BigDecimal(_) => "BigDecimal",
        FormKind::Ratio(_) => "Ratio",
        FormKind::Regex(_) => "Regex",
        FormKind::AutoKeyword(_) => "AutoKeyword",
        FormKind::AnonFn(_) => "AnonFn",
        FormKind::Quote(_) => "Quote",
        FormKind::SyntaxQuote(_) => "SyntaxQuote",
        FormKind::Unquote(_) => "Unquote",
        FormKind::UnquoteSplice(_) => "UnquoteSplice",
        FormKind::Deref(_) => "Deref",
        FormKind::Var(_) => "Var",
        FormKind::Meta(_, _) => "Meta",
        FormKind::TaggedLiteral(_, _) => "TaggedLiteral",
        _ => "ReaderCond",
    }
}

/// Keys and values in turn, as pairs.
fn pairs_of(vs: &Vec<VarId>) -> (r: Vec<(VarId, VarId)>)
    ensures
        r@ == pair_up(vs@),
{
    let m: usize = vs.len();
    let n: usize = m / 2;
    let mut out: Vec<(VarId, VarId)> = Vec::new();
    let mut i: usize = 0;
    while i < n
        invariant
            i <= n,
            m == vs@.len(),
            n == m / 2,
            out@ == pair_up(vs@).take(i as int),
        decreases n - i,
    {
        out.push((vs[2 * i], vs[2 * i + 1]));
        assert(pair_up(vs@).take(i + 1) =~= pair_up(vs@).take(i as int).push(pair_up(vs@)[i as int]));
        i += 1;
    }
    assert(pair_up(vs@).take(n as int) =~= pair_up(vs@));
    out
}

fn is_module_form(t: &str) -> (r: bool)
    ensures
        r == is_module_level(t@),
{
    same(t, "ns") || same(t, "require") || same(t, "in-ns") || same(t, "alias") || same(t, "load-file")
}

fn is_left_out(t: &str) -> (r: bool)
    ensures
        r == is_not_lowered(t@),
{
    same(t, "defprotocol") || same(t, "extend-type") || same(t, "extend-protocol") || same(t, "defmulti")
        || same(t, "defmethod") || same(t, "defrecord") || same(t, "reify") || same(t, "binding")
        || same(t, "with-out-str") || same(t, "try") || same(t, "letfn")
}

/// The name in a `def`, with or without metadata.
fn name_of_def(k: &FormKind) -> (r: Option<String>)
    ensures
        ir::text_opt(r) == def_name(*k),
{
    match k {
        FormKind::Symbol(name) => Some(name.clone()),
        FormKind::Meta(_, inner) => match &inner.kind {
            FormKind::Symbol(name) => Some(name.clone()),
            _ => None,
        },
        _ => None,
    }
}

/// A copy of the forms from `from` on.
fn forms_from(fs: &Vec<Form>, from: usize) -> (r: Vec<Form>)
    requires
        from <= fs@.len(),
    ensures
        form::forms_view(r@) == form::forms_view(fs@.subrange(from as int, fs@.len() as int)),
{
    let mut out: Vec<Form> = Vec::new();
    let mut i: usize = from;
    assert(fs@.subrange(from as int, from as int) =~= out@);
    while i < fs.len()
        invariant
            from <= i <= fs@.len(),
            form::forms_view(out@) == form::forms_view(fs@.subrange(from as int, i as int)),
        decreases fs@.len() - i,
    {
        let f = copy_form(&fs[i]);
        proof {
            form::forms_view_push(out@, f);
            form::forms_view_push(fs@.subrange(from as int, i as int), fs@[i as int]);
            assert(fs@.subrange(from as int, i + 1) =~= fs@.subrange(from as int, i as int).push(fs@[i as int]));
        }
        out.push(f);
        i += 1;
    }
    out
}

impl AstLowering {
    /// A lowering in its first state: in an empty entry block and one empty scope.
    pub fn new(name: Option<String>, ns: &str) -> (r: AstLowering)
        ensures
            r@ == initial(ir::text_opt(name), ns@),
    {
        let mut func = IrFunction::new(name, None);
        func.next_block = 1;
        let mut locals: Vec<Vec<(String, VarId)>> = Vec::new();
        locals.push(Vec::new());
        let r = AstLowering {
            func,
            current_block: BlockId(0),
            current_insts: Vec::new(),
            locals,
            current_ns: ns.to_owned(),
            loop_headers: Vec::new(),
        };
        assert(r@.locals[0] =~= Seq::empty());
        assert(r@.locals =~= seq![Seq::empty()]);
        assert(r@.insts =~= Seq::empty());
        assert(r@.blocks =~= Seq::empty());
        assert(r@.params =~= Seq::empty());
        assert(r@.headers =~= Seq::empty());
        r
    }

    fn fresh_var(&mut self) -> (r: Result<VarId, LowerError>)
        ensures
            agrees(r, final(self)@, fresh_var(old(self)@)),
    {
        if self.func.next_var == u32::MAX {
            Err(unsupported("more values than a function can hold"))
        } else {
            let v = VarId(self.func.next_var);
            self.func.next_var = self.func.next_var + 1;
            Ok(v)
        }
    }

    fn fresh_block(&mut self) -> (r: Result<BlockId, LowerError>)
        ensures
            match (r, fresh_block(old(self)@)) {
                (Ok(b), Ok((s, w))) => final(self)@ == s && b == w,
                (Err(e), Err(w)) => e@ == w,
                _ => false,
            },
    {
        if self.func.next_block == u32::MAX {
            Err(unsupported("more blocks than a function can hold"))
        } else {
            let b = BlockId(self.func.next_block);
            self.func.next_block = self.func.next_block + 1;
            Ok(b)
        }
    }

    fn emit(&mut self, inst: Inst)
        ensures
            final(self)@ == emit(old(self)@, inst@),
    {
        self.current_insts.push(inst);
        assert(self@.insts =~= old(self)@.insts.push(inst@));
    }

    fn emit_const(&mut self, c: Const) -> (r: Result<VarId, LowerError>)
        ensures
            agrees(r, final(self)@, emit_const(old(self)@, c@)),
    {
        match self.fresh_var() {
            Err(e) => Err(e),
            Ok(dst) => {
                self.emit(Inst::Const(dst, c));
                Ok(dst)
            },
        }
    }

    fn emit_phi(&mut self, entries: Vec<(BlockId, VarId)>) -> (r: Result<VarId, LowerError>)
        ensures
            agrees(r, final(self)@, emit_value(old(self)@, |dst: VarId| InstView::Phi(dst, entries@))),
    {
        match self.fresh_var() {
            Err(e) => Err(e),
            Ok(dst) => {
                self.emit(Inst::Phi(dst, entries));
                Ok(dst)
            },
        }
    }

    /// Ends the block under construction: its phis go in front.
    fn finish_block(&mut self, terminator: Terminator)
        ensures
            final(self)@ == finish(old(self)@, terminator@),
    {
        let mut rest: Vec<Inst> = Vec::new();
        std::mem::swap(&mut rest, &mut self.current_insts);
        let ghost all = rest@;
        let ghost seen = old(self)@.insts;
        assert(seen =~= ir::insts_view(all));
        let mut phis: Vec<Inst> = Vec::new();
        let mut regular: Vec<Inst> = Vec::new();
        assert(ir::insts_view(phis@) =~= Seq::empty());
        let n: usize = rest.len();
        let mut i: usize = 0;
        while i < n
            invariant
                i <= n,
                n == all.len(),
                seen == ir::insts_view(all),
                rest@ == all.subrange(i as int, n as int),
                ir::insts_view(phis@) == select(seen.take(i as int), true),
                ir::insts_view(regular@) == select(seen.take(i as int), false),
            decreases n - i,
        {
            let inst = rest.remove(0);
            let ghost p0 = phis@;
            let ghost r0 = regular@;
            let is_phi = match &inst {
                Inst::Phi(_, _) => true,
                _ => false,
            };
            if is_phi {
                phis.push(inst);
            } else {
                regular.push(inst);
            }
            proof {
                assert(seen.take(i + 1).drop_last() =~= seen.take(i as int));
                assert(seen.take(i + 1).last() == inst@);
                assert(is_phi == (inst@ is Phi));
                assert(ir::insts_view(p0.push(inst)) =~= ir::insts_view(p0).push(inst@));
                assert(ir::insts_view(r0.push(inst)) =~= ir::insts_view(r0).push(inst@));
            }
            i += 1;
        }
        assert(seen.take(n as int) =~= seen);
        let block = Block { id: self.current_block, phis, insts: regular, terminator };
        self.func.blocks.push(block);
        assert(self@.blocks =~= old(self)@.blocks.push(block@));
        assert(self@.insts =~= Seq::empty());
    }

    fn start_block(&mut self, id: BlockId)
        ensures
            final(self)@ == start(old(self)@, id),
    {
        self.current_block = id;
    }

    fn push_scope(&mut self)
        ensures
            final(self)@ == push_scope(old(self)@),
    {
        let scope: Vec<(String, VarId)> = Vec::new();
        self.locals.push(scope);
        assert(ir::params_view(scope@) =~= Seq::empty());
        assert(self@.locals =~= old(self)@.locals.push(Seq::empty()));
    }

    fn pop_scope(&mut self)
        ensures
            final(self)@ == pop_scope(old(self)@),
    {
        self.locals.pop();
        assert(old(self)@.locals.len() > 0 ==> self@.locals =~= old(self)@.locals.drop_last());
    }

    /// Binds a name in the innermost scope.
    fn bind_local(&mut self, name: &str, v: VarId)
        ensures
            final(self)@ == bind(old(self)@, name@, v),
    {
        match self.locals.pop() {
            None => {},
            Some(mut scope) => {
                let ghost before = ir::params_view(scope@);
                match find_name(&scope, name) {
                    Some(i) => {
                        scope.set(i, (name.to_owned(), v));
                        assert(ir::params_view(scope@) =~= before.update(i as int, (name@, v)));
                    },
                    None => {
                        scope.push((name.to_owned(), v));
                        assert(ir::params_view(scope@) =~= before.push((name@, v)));
                    },
                }
                self.locals.push(scope);
                assert(self@.locals =~= old(self)@.locals.drop_last().push(ir::params_view(scope@)));
            },
        }
    }

    /// What a name is bound to, in the innermost scope that binds it.
    fn lookup_local(&self, name: &str) -> (r: Option<VarId>)
        ensures
            r == lookup(self@.locals, name@, self@.locals.len() as int),
    {
        let mut n: usize = self.locals.len();
        while n > 0
            invariant
                n <= self.locals@.len(),
                self@.locals == scopes_view(self.locals@),
                lookup(self@.locals, name@, self@.locals.len() as int) == lookup(self@.locals, name@, n as int),
            decreases n,
        {
            let scope = &self.locals[n - 1];
            assert(self@.locals[n - 1] == ir::params_view(scope@));
            match find_name(scope, name) {
                Some(i) => {
                    return Some(scope[i].1);
                },
                None => {},
            }
            n -= 1;
        }
        None
    }

    fn lower_symbol(&mut self, name: &str) -> (r: Result<VarId, LowerError>)
        ensures
            agrees(r, final(self)@, lower_symbol(old(self)@, name@)),
    {
        match self.lookup_local(name) {
            Some(v) => Ok(v),
            None => {
                let (ns, base) = match rsplit_once(name, '/') {
                    Some((ns, base)) => (ns, base),
                    None => (self.current_ns.clone(), name.to_owned()),
                };
                match self.fresh_var() {
                    Err(e) => Err(e),
                    Ok(dst) => {
                        self.emit(Inst::LoadGlobal(dst, ns, base));
                        Ok(dst)
                    },
                }
            },
        }
    }

    /// What a closure captures: every name in scope, outermost first, once each.
    fn captures(&self) -> (r: (Vec<String>, Vec<VarId>))
        ensures
            (ir::texts(r.0@), r.1@) == capture_all(self@.locals, 0, Seq::empty(), Seq::empty()),
    {
        let mut names: Vec<String> = Vec::new();
        let mut vars: Vec<VarId> = Vec::new();
        assert(ir::texts(names@) =~= Seq::empty());
        let ghost want = capture_all(self@.locals, 0, Seq::empty(), Seq::empty());
        let mut i: usize = 0;
        while i < self.locals.len()
            invariant
                i <= self.locals@.len(),
                self@.locals == scopes_view(self.locals@),
                want == capture_all(self@.locals, i as int, ir::texts(names@), vars@),
            decreases self.locals@.len() - i,
        {
            let scope = &self.locals[i];
            let ghost sv = ir::params_view(scope@);
            assert(self@.locals[i as int] == sv);
            let ghost n0 = ir::texts(names@);
            let ghost v0 = vars@;
            let mut j: usize = 0;
            while j < scope.len()
                invariant
                    j <= scope@.len(),
                    sv == ir::params_view(scope@),
                    capture_scope(sv, 0, n0, v0) == capture_scope(sv, j as int, ir::texts(names@), vars@),
                decreases scope@.len() - j,
            {
                if !contains_text(&names, scope[j].0.as_str()) {
                    let ghost before = names@;
                    names.push(scope[j].0.clone());
                    vars.push(scope[j].1);
                    assert(ir::texts(names@) =~= ir::texts(before).push(sv[j as int].0));
                }
                j += 1;
            }
            i += 1;
        }
        (names, vars)
    }

    /// A closure with the forms from `from` on as its source.
    fn lower_closure(&mut self, name: Option<String>, forms: &Vec<Form>, from: usize) -> (r: Result<VarId, LowerError>)
        requires
            from <= forms@.len(),
        ensures
            agrees(r, final(self)@, lower_closure(old(self)@, ir::text_opt(name), forms@, from as int)),
    {
        let (capture_names, vars) = self.captures();
        let body_forms = forms_from(forms, from);
        match self.fresh_var() {
            Err(e) => Err(e),
            Ok(dst) => {
                let t = ClosureTemplate {
                    name,
                    arity_fn_names: Vec::new(),
                    param_counts: Vec::new(),
                    is_variadic: Vec::new(),
                    capture_names,
                    body_forms,
                };
                assert(t@.arity_fn_names =~= Seq::empty());
                self.emit(Inst::AllocClosure(dst, t, vars));
                Ok(dst)
            },
        }
    }

    /// `fn`: an optional name, then the source.
    fn lower_fn(&mut self, forms: &Vec<Form>, a: usize) -> (r: Result<VarId, LowerError>)
        requires
            a <= forms@.len(),
        ensures
            agrees(r, final(self)@, lower_fn(old(self)@, forms@, a as int)),
    {
        if a >= forms.len() {
            return Err(malformed("fn* requires arguments"));
        }
        match &forms[a].kind {
            FormKind::Symbol(name) => self.lower_closure(Some(name.clone()), forms, a + 1),
            _ => self.lower_closure(None, forms, a),
        }
    }

    /// Ends the block under construction, and goes on in a block that nothing leads to.
    fn dead_end(&mut self, terminator: Terminator) -> (r: Result<VarId, LowerError>)
        ensures
            agrees(r, final(self)@, dead_end(old(self)@, terminator@)),
    {
        self.finish_block(terminator);
        match self.fresh_block() {
            Err(e) => Err(e),
            Ok(b) => {
                self.start_block(b);
                self.emit_const(Const::Nil)
            },
        }
    }

    /// Feeds the arguments of a jump back to the phis of the loop header.
    fn feed_header(&mut self, header: BlockId, args: &Vec<VarId>)
        ensures
            final(self)@ == (LowerView { blocks: feed_header(old(self)@.blocks, header, old(self)@.current, args@), ..old(self)@ }),
    {
        let ghost before = self@;
        let from = self.current_block;
        let mut h: usize = 0;
        while h < self.func.blocks.len() && self.func.blocks[h].id != header
            invariant
                h <= self.func.blocks@.len(),
                before == self@,
                self@.blocks == ir::blocks_view(self.func.blocks@),
                finished_at(before.blocks, header, 0) == finished_at(before.blocks, header, h as int),
            decreases self.func.blocks@.len() - h,
        {
            h += 1;
        }
        if h < self.func.blocks.len() {
            let ghost blocks0 = self.func.blocks@;
            let mut block = self.func.blocks.remove(h);
            let ghost phis0 = block@.phis;
            let ghost b0 = block@;
            let n: usize = block.phis.len();
            let mut i: usize = 0;
            while i < n && i < args.len()
                invariant
                    i <= n,
                    n == block.phis@.len(),
                    n == phis0.len(),
                    i <= args@.len(),
                    block@ == (BlockView { phis: ir::insts_view(block.phis@), ..b0 }),
                    forall|k: int| 0 <= k < i ==> (#[trigger] block.phis@[k])@ == feed_phi(phis0[k], from, args@, k),
                    forall|k: int| i <= k < n ==> (#[trigger] block.phis@[k])@ == phis0[k],
                decreases n - i,
            {
                let phi = block.phis.remove(i);
                let ghost old_phi = phi@;
                assert(old_phi == phis0[i as int]);
                let fed = match phi {
                    Inst::Phi(dst, entries) => {
                        let mut entries = entries;
                        entries.push((from, args[i]));
                        Inst::Phi(dst, entries)
                    },
                    other => other,
                };
                assert(fed@ == feed_phi(phis0[i as int], from, args@, i as int));
                block.phis.insert(i, fed);
                i += 1;
            }
            let ghost fed_phis = Seq::new(phis0.len(), |k: int| feed_phi(phis0[k], from, args@, k));
            assert(ir::insts_view(block.phis@) =~= fed_phis) by {
                assert forall|k: int| 0 <= k < n implies ir::insts_view(block.phis@)[k] == fed_phis[k] by {
                    assert(ir::insts_view(block.phis@)[k] == block.phis@[k]@);
                }
            }
            self.func.blocks.insert(h, block);
            assert(self@.blocks =~= before.blocks.update(h as int, BlockView { phis: fed_phis, ..b0 }));
        }
    }

    /// The phi that joins two ways.
    fn join_two(&mut self, join: BlockId, a: (BlockId, VarId), b: (BlockId, VarId)) -> (r: Result<VarId, LowerError>)
        ensures
            agrees(r, final(self)@, join_two(old(self)@, join, a, b)),
    {
        self.start_block(join);
        let mut entries: Vec<(BlockId, VarId)> = Vec::new();
        entries.push(a);
        entries.push(b);
        assert(entries@ =~= seq![a, b]);
        self.emit_phi(entries)
    }
}

impl AstLowering {
    /// A quoted form: constants stand for themselves, collections are built.
    fn lower_quote(&mut self, form: &Form) -> (r: Result<VarId, LowerError>)
        ensures
            agrees(r, final(self)@, lower_quote(old(self)@, *form)),
        decreases form, 0int,
    {
        if let Some(c) = literal_of(&form.kind) {
            return self.emit_const(c);
        }
        match &form.kind {
            FormKind::Symbol(t) => self.emit_const(Const::Symbol(t.clone())),
            FormKind::Vector(fs) => {
                let vs = match self.quote_all(fs) {
                    Ok(vs) => vs,
                    Err(e) => return Err(e),
                };
                let dst = match self.fresh_var() {
                    Ok(dst) => dst,
                    Err(e) => return Err(e),
                };
                self.emit(Inst::AllocVector(dst, vs));
                Ok(dst)
            },
            FormKind::List(fs) => {
                let vs = match self.quote_all(fs) {
                    Ok(vs) => vs,
                    Err(e) => return Err(e),
                };
                let dst = match self.fresh_var() {
                    Ok(dst) => dst,
                    Err(e) => return Err(e),
                };
                self.emit(Inst::AllocList(dst, vs));
                Ok(dst)
            },
            FormKind::HashSet(fs) => {
                let vs = match self.quote_all(fs) {
                    Ok(vs) => vs,
                    Err(e) => return Err(e),
                };
                let dst = match self.fresh_var() {
                    Ok(dst) => dst,
                    Err(e) => return Err(e),
                };
                self.emit(Inst::AllocSet(dst, vs));
                Ok(dst)
            },
            FormKind::Dict(fs) => {
                if fs.len() % 2 != 0 {
                    return Err(malformed("map literal requires even number of forms"));
                }
                let vs = match self.quote_all(fs) {
                    Ok(vs) => vs,
                    Err(e) => return Err(e),
                };
                let dst = match self.fresh_var() {
                    Ok(dst) => dst,
                    Err(e) => return Err(e),
                };
                self.emit(Inst::AllocMap(dst, pairs_of(&vs)));
                Ok(dst)
            },
            other => {
                let text = "quoted form: ".to_owned().concat(label(other));
                Err(LowerError::Unsupported(text))
            },
        }
    }

    /// The quoted forms of a list.
    fn quote_all(&mut self, fs: &Vec<Form>) -> (r: Result<Vec<VarId>, LowerError>)
        ensures
            agrees_all(r, final(self)@, quote_all(old(self)@, fs@, 0, Seq::empty())),
        decreases fs@, fs@.len(),
    {
        let ghost want = quote_all(self@, fs@, 0, Seq::empty());
        let mut out: Vec<VarId> = Vec::new();
        let mut i: usize = 0;
        while i < fs.len()
            invariant
                i <= fs@.len(),
                want == quote_all(old(self)@, fs@, 0, Seq::empty()),
                want == quote_all(self@, fs@, i as int, out@),
            decreases fs@.len() - i,
        {
            match self.lower_quote(&fs[i]) {
                Ok(v) => out.push(v),
                Err(e) => {
                    assert(want == Err::<(LowerView, Seq<VarId>), LowerErrorView>(e@));
                    return Err(e);
                },
            }
            i += 1;
        }
        Ok(out)
    }

    /// A form.
    fn lower_form(&mut self, form: &Form) -> (r: Result<VarId, LowerError>)
        ensures
            agrees(r, final(self)@, lower_form(old(self)@, *form)),
        decreases form, 0int, 0int,
    {
        if let Some(c) = literal_of(&form.kind) {
            return self.emit_const(c);
        }
        match &form.kind {
            FormKind::Symbol(t) => self.lower_symbol(t.as_str()),
            FormKind::Vector(fs) => {
                let vs = match self.lower_forms(fs, 0) {
                    Ok(vs) => vs,
                    Err(e) => return Err(e),
                };
                let dst = match self.fresh_var() {
                    Ok(dst) => dst,
                    Err(e) => return Err(e),
                };
                self.emit(Inst::AllocVector(dst, vs));
                Ok(dst)
            },
            FormKind::Dict(fs) => {
                if fs.len() % 2 != 0 {
                    return Err(malformed("map literal requires even number of forms"));
                }
                let vs = match self.lower_forms(fs, 0) {
                    Ok(vs) => vs,
                    Err(e) => return Err(e),
                };
                let dst = match self.fresh_var() {
                    Ok(dst) => dst,
                    Err(e) => return Err(e),
                };
                self.emit(Inst::AllocMap(dst, pairs_of(&vs)));
                Ok(dst)
            },
            FormKind::HashSet(fs) => {
                let vs = match self.lower_forms(fs, 0) {
                    Ok(vs) => vs,
                    Err(e) => return Err(e),
                };
                let dst = match self.fresh_var() {
                    Ok(dst) => dst,
                    Err(e) => return Err(e),
                };
                self.emit(Inst::AllocSet(dst, vs));
                Ok(dst)
            },
            FormKind::List(fs) => {
                if fs.len() == 0 {
                    let dst = match self.fresh_var() {
                        Ok(dst) => dst,
                        Err(e) => return Err(e),
                    };
                    self.emit(Inst::AllocList(dst, Vec::new()));
                    Ok(dst)
                } else {
                    self.lower_list(fs)
                }
            },
            FormKind::Quote(inner) => self.lower_quote(inner),
            FormKind::Deref(inner) => {
                let v = match self.lower_form(inner) {
                    Ok(v) => v,
                    Err(e) => return Err(e),
                };
                let dst = match self.fresh_var() {
                    Ok(dst) => dst,
                    Err(e) => return Err(e),
                };
                self.emit(Inst::Deref(dst, v));
                Ok(dst)
            },
            FormKind::Meta(_, inner) => self.lower_form(inner),
            FormKind::BigInt(_) => Err(unsupported("BigInt literal")),
            FormKind::BigDecimal(_) => Err(unsupported("BigDecimal literal")),
            FormKind::Ratio(_) => Err(unsupported("Ratio literal")),
            FormKind::Regex(_) => Err(unsupported("Regex literal")),
            FormKind::AutoKeyword(_) => Err(unsupported("auto-keyword")),
            FormKind::SyntaxQuote(_) => Err(unsupported("syntax-quote in IR")),
            FormKind::Unquote(_) => Err(unsupported("unquote outside syntax-quote")),
            FormKind::UnquoteSplice(_) => Err(unsupported("unquote-splice outside syntax-quote")),
            FormKind::Var(_) => Err(unsupported("#'var in IR")),
            FormKind::AnonFn(_) => Err(unsupported("#() should be expanded before IR lowering")),
            FormKind::TaggedLiteral(_, _) => Err(unsupported("tagged literal")),
            _ => Err(unsupported("reader conditional should be resolved before IR lowering")),
        }
    }

    /// The forms of a list from `a` on.
    fn lower_forms(&mut self, fs: &Vec<Form>, a: usize) -> (r: Result<Vec<VarId>, LowerError>)
        requires
            a <= fs@.len(),
        ensures
            agrees_all(r, final(self)@, lower_all(old(self)@, fs@, a as int, Seq::empty())),
        decreases fs@, fs@.len() - a, 0int,
    {
        let ghost want = lower_all(self@, fs@, a as int, Seq::empty());
        let mut out: Vec<VarId> = Vec::new();
        let mut i: usize = a;
        while i < fs.len()
            invariant
                i <= fs@.len(),
                want == lower_all(old(self)@, fs@, a as int, Seq::empty()),
                want == lower_all(self@, fs@, i as int, out@),
            decreases fs@.len() - i,
        {
            match self.lower_form(&fs[i]) {
                Ok(v) => out.push(v),
                Err(e) => {
                    assert(want == Err::<(LowerView, Seq<VarId>), LowerErrorView>(e@));
                    return Err(e);
                },
            }
            i += 1;
        }
        Ok(out)
    }

    /// The forms from `a` on in turn: the result is that of the last, or nil where there is none.
    fn lower_body(&mut self, fs: &Vec<Form>, a: usize) -> (r: Result<VarId, LowerError>)
        requires
            a <= fs@.len(),
        ensures
            agrees(r, final(self)@, lower_body(old(self)@, fs@, a as int)),
        decreases fs@, fs@.len() - a, 1int,
    {
        if a >= fs.len() {
            return self.emit_const(Const::Nil);
        }
        let ghost want = lower_rest(self@, fs@, a as int, VarId(0));
        let mut last = VarId(0);
        let mut i: usize = a;
        while i < fs.len()
            invariant
                a < fs@.len(),
                i <= fs@.len(),
                want == lower_body(old(self)@, fs@, a as int),
                want == lower_rest(self@, fs@, i as int, last),
            decreases fs@.len() - i,
        {
            match self.lower_form(&fs[i]) {
                Ok(v) => last = v,
                Err(e) => {
                    assert(want == Err::<(LowerView, VarId), LowerErrorView>(e@));
                    return Err(e);
                },
            }
            i += 1;
        }
        Ok(last)
    }

    /// The form at `a`, or nil where there is none.
    fn lower_or_nil(&mut self, fs: &Vec<Form>, a: usize) -> (r: Result<VarId, LowerError>)
        ensures
            agrees(r, final(self)@, lower_or_nil(old(self)@, fs@, a as int)),
        decreases fs@, 0int, 0int,
    {
        if a < fs.len() {
            self.lower_form(&fs[a])
        } else {
            self.emit_const(Const::Nil)
        }
    }

    /// A list that is not empty: a special form or a call.
    fn lower_list(&mut self, fs: &Vec<Form>) -> (r: Result<VarId, LowerError>)
        requires
            fs@.len() > 0,
        ensures
            agrees(r, final(self)@, lower_list(old(self)@, fs@)),
        decreases fs@, fs@.len(), 2int,
    {
        if let FormKind::Symbol(name) = &fs[0].kind {
            let t = name.as_str();
            if same(t, "if") {
                return self.lower_if(fs);
            }
            if same(t, "do") {
                return self.lower_body(fs, 1);
            }
            if same(t, "let") || same(t, "let*") {
                return self.lower_let(fs);
            }
            if same(t, "loop") || same(t, "loop*") {
                return self.lower_loop(fs);
            }
            if same(t, "recur") {
                return self.lower_recur(fs);
            }
            if same(t, "def") {
                return self.lower_def(fs);
            }
            if same(t, "fn") || same(t, "fn*") {
                return self.lower_fn(fs, 1);
            }
            if same(t, "quote") {
                if fs.len() != 2 {
                    return Err(malformed("quote expects 1 argument"));
                }
                return self.lower_quote(&fs[1]);
            }
            if same(t, "throw") {
                return self.lower_throw(fs);
            }
            if same(t, "set!") {
                return self.lower_set_bang(fs);
            }
            if is_module_form(t) {
                return Err(LowerError::Unsupported(name.clone().concat(" (module-level only)")));
            }
            if is_left_out(t) {
                return Err(LowerError::Unsupported(name.clone().concat(" (not yet in IR)")));
            }
            if same(t, "defn") {
                return self.lower_defn(fs);
            }
            if same(t, "defmacro") || same(t, "defonce") {
                return Err(LowerError::Unsupported(name.clone().concat(" (should be expanded before IR)")));
            }
            if same(t, "and") {
                return self.lower_and(fs, 1);
            }
            if same(t, "or") {
                return self.lower_or(fs, 1);
            }
        }
        self.lower_call(fs)
    }

    /// A call: of a known function by name, or of whatever the head yields.
    fn lower_call(&mut self, fs: &Vec<Form>) -> (r: Result<VarId, LowerError>)
        requires
            fs@.len() > 0,
        ensures
            agrees(r, final(self)@, lower_call(old(self)@, fs@)),
        decreases fs@, fs@.len(), 1int,
    {
        let known = match &fs[0].kind {
            FormKind::Symbol(name) => resolve_known_fn(name.as_str()),
            _ => None,
        };
        match known {
            Some(kf) => {
                let vs = match self.lower_forms(fs, 1) {
                    Ok(vs) => vs,
                    Err(e) => return Err(e),
                };
                let dst = match self.fresh_var() {
                    Ok(dst) => dst,
                    Err(e) => return Err(e),
                };
                self.emit(Inst::CallKnown(dst, kf, vs));
                Ok(dst)
            },
            None => {
                let callee = match self.lower_form(&fs[0]) {
                    Ok(v) => v,
                    Err(e) => return Err(e),
                };
                let vs = match self.lower_forms(fs, 1) {
                    Ok(vs) => vs,
                    Err(e) => return Err(e),
                };
                let dst = match self.fresh_var() {
                    Ok(dst) => dst,
                    Err(e) => return Err(e),
                };
                self.emit(Inst::Call(dst, callee, vs));
                Ok(dst)
            },
        }
    }

    /// `if` with its test, and the branches, nil where they are missing.
    fn lower_if(&mut self, fs: &Vec<Form>) -> (r: Result<VarId, LowerError>)
        ensures
            agrees(r, final(self)@, lower_if(old(self)@, fs@)),
        decreases fs@, fs@.len(), 1int,
    {
        if fs.len() < 2 || fs.len() > 4 {
            return Err(malformed("if expects 1-3 arguments"));
        }
        let test = match self.lower_form(&fs[1]) {
            Ok(v) => v,
            Err(e) => return Err(e),
        };
        let then_block = match self.fresh_block() {
            Ok(b) => b,
            Err(e) => return Err(e),
        };
        let else_block = match self.fresh_block() {
            Ok(b) => b,
            Err(e) => return Err(e),
        };
        let join = match self.fresh_block() {
            Ok(b) => b,
            Err(e) => return Err(e),
        };
        self.finish_block(Terminator::Branch { cond: test, then_block, else_block });
        self.start_block(then_block);
        let then_val = match self.lower_or_nil(fs, 2) {
            Ok(v) => v,
            Err(e) => return Err(e),
        };
        let then_exit = self.current_block;
        self.finish_block(Terminator::Jump(join));
        self.start_block(else_block);
        let else_val = match self.lower_or_nil(fs, 3) {
            Ok(v) => v,
            Err(e) => return Err(e),
        };
        let else_exit = self.current_block;
        self.finish_block(Terminator::Jump(join));
        self.join_two(join, (then_exit, then_val), (else_exit, else_val))
    }

    /// The bindings of a `let`: names and values in turn.
    fn lower_bindings(&mut self, fs: &Vec<Form>) -> (r: Result<(), LowerError>)
        ensures
            agrees_state(r, final(self)@, lower_bindings(old(self)@, fs@, 0)),
        decreases fs@, fs@.len(), 0int,
    {
        let ghost want = lower_bindings(self@, fs@, 0);
        let m: usize = fs.len();
        let n: usize = m / 2;
        let mut i: usize = 0;
        while i < n
            invariant
                i <= n,
                m == fs@.len(),
                n == m / 2,
                want == lower_bindings(old(self)@, fs@, 0),
                want == lower_bindings(self@, fs@, 2 * i),
            decreases n - i,
        {
            assert(2 * i + 1 < fs@.len());
            match &fs[2 * i].kind {
                FormKind::Symbol(name) => match self.lower_form(&fs[2 * i + 1]) {
                    Ok(v) => self.bind_local(name.as_str(), v),
                    Err(e) => {
                        assert(want == Err::<LowerView, LowerErrorView>(e@));
                        return Err(e);
                    },
                },
                _ => {
                    let e = unsupported("destructuring in let (not yet in IR)");
                    assert(want == Err::<LowerView, LowerErrorView>(e@));
                    return Err(e);
                },
            }
            i += 1;
        }
        Ok(())
    }

    /// `let`: the bindings one after the other in a scope of their own, then the body.
    fn lower_let(&mut self, fs: &Vec<Form>) -> (r: Result<VarId, LowerError>)
        ensures
            agrees(r, final(self)@, lower_let(old(self)@, fs@)),
        decreases fs@, fs@.len(), 1int,
    {
        if fs.len() < 2 {
            return Err(malformed("let requires a binding vector"));
        }
        match &fs[1].kind {
            FormKind::Vector(bs) => {
                if bs.len() % 2 != 0 {
                    return Err(malformed("let requires even number of binding forms"));
                }
                self.push_scope();
                match self.lower_bindings(bs) {
                    Ok(_) => {},
                    Err(e) => return Err(e),
                }
                let v = match self.lower_body(fs, 2) {
                    Ok(v) => v,
                    Err(e) => return Err(e),
                };
                self.pop_scope();
                Ok(v)
            },
            _ => Err(malformed("let bindings must be a vector")),
        }
    }

    /// The names and initial values of a loop.
    fn lower_inits(&mut self, fs: &Vec<Form>) -> (r: Result<(Vec<String>, Vec<VarId>), LowerError>)
        ensures
            match (r, lower_inits(old(self)@, fs@, 0, Seq::empty(), Seq::empty())) {
                (Ok((names, vars)), Ok((s, ns, vs))) => {
                    &&& final(self)@ == s
                    &&& ir::texts(names@) == ns
                    &&& vars@ == vs
                    &&& names@.len() == vars@.len()
                },
                (Err(e), Err(w)) => e@ == w,
                _ => false,
            },
        decreases fs@, fs@.len(), 0int,
    {
        let ghost want = lower_inits(self@, fs@, 0, Seq::empty(), Seq::empty());
        let m: usize = fs.len();
        let n: usize = m / 2;
        let mut names: Vec<String> = Vec::new();
        let mut vars: Vec<VarId> = Vec::new();
        assert(ir::texts(names@) =~= Seq::empty());
        let mut i: usize = 0;
        while i < n
            invariant
                i <= n,
                m == fs@.len(),
                n == m / 2,
                names@.len() == vars@.len(),
                want == lower_inits(old(self)@, fs@, 0, Seq::empty(), Seq::empty()),
                want == lower_inits(self@, fs@, 2 * i, ir::texts(names@), vars@),
            decreases n - i,
        {
            assert(2 * i + 1 < fs@.len());
            match &fs[2 * i].kind {
                FormKind::Symbol(name) => match self.lower_form(&fs[2 * i + 1]) {
                    Ok(v) => {
                        let ghost before = names@;
                        names.push(name.clone());
                        vars.push(v);
                        assert(ir::texts(names@) =~= ir::texts(before).push(name@));
                    },
                    Err(e) => {
                        assert(want == Err::<(LowerView, Seq<Seq<char>>, Seq<VarId>), LowerErrorView>(e@));
                        return Err(e);
                    },
                },
                _ => {
                    let e = unsupported("destructuring in loop (not yet in IR)");
                    assert(want == Err::<(LowerView, Seq<Seq<char>>, Seq<VarId>), LowerErrorView>(e@));
                    return Err(e);
                },
            }
            i += 1;
        }
        Ok((names, vars))
    }

    /// A phi for each loop variable, fed from `init`, and bound to its name.
    fn loop_phis(&mut self, init: BlockId, names: &Vec<String>, vars: &Vec<VarId>) -> (r: Result<Vec<VarId>, LowerError>)
        requires
            names@.len() == vars@.len(),
        ensures
            agrees_all(r, final(self)@, loop_phis(old(self)@, init, ir::texts(names@), vars@, 0, Seq::empty())),
    {
        let ghost want = loop_phis(self@, init, ir::texts(names@), vars@, 0, Seq::empty());
        let mut out: Vec<VarId> = Vec::new();
        let mut i: usize = 0;
        while i < names.len()
            invariant
                i <= names@.len(),
                names@.len() == vars@.len(),
                want == loop_phis(old(self)@, init, ir::texts(names@), vars@, 0, Seq::empty()),
                want == loop_phis(self@, init, ir::texts(names@), vars@, i as int, out@),
            decreases names@.len() - i,
        {
            let mut entries: Vec<(BlockId, VarId)> = Vec::new();
            entries.push((init, vars[i]));
            assert(entries@ =~= seq![(init, vars@[i as int])]);
            match self.emit_phi(entries) {
                Ok(p) => {
                    self.bind_local(names[i].as_str(), p);
                    out.push(p);
                },
                Err(e) => {
                    assert(want == Err::<(LowerView, Seq<VarId>), LowerErrorView>(e@));
                    return Err(e);
                },
            }
            i += 1;
        }
        Ok(out)
    }

    /// `loop`: the initial values, a header block whose phis are the loop variables, the body, and
    /// an exit block that takes the value of the body.
    fn lower_loop(&mut self, fs: &Vec<Form>) -> (r: Result<VarId, LowerError>)
        ensures
            agrees(r, final(self)@, lower_loop(old(self)@, fs@)),
        decreases fs@, fs@.len(), 1int,
    {
        if fs.len() < 2 {
            return Err(malformed("loop requires a binding vector"));
        }
        match &fs[1].kind {
            FormKind::Vector(bs) => {
                if bs.len() % 2 != 0 {
                    return Err(malformed("loop requires even number of binding forms"));
                }
                let (names, vars) = match self.lower_inits(bs) {
                    Ok(x) => x,
                    Err(e) => return Err(e),
                };
                let header = match self.fresh_block() {
                    Ok(b) => b,
                    Err(e) => return Err(e),
                };
                let init = self.current_block;
                self.finish_block(Terminator::Jump(header));
                self.start_block(header);
                self.push_scope();
                let phis = match self.loop_phis(init, &names, &vars) {
                    Ok(phis) => phis,
                    Err(e) => return Err(e),
                };
                let ghost s4 = self@;
                self.loop_headers.push((header, phis));
                assert(self@.headers =~= s4.headers.push((header, phis@)));
                let v = match self.lower_body(fs, 2) {
                    Ok(v) => v,
                    Err(e) => return Err(e),
                };
                let body_exit = self.current_block;
                let ghost s5 = self@;
                self.loop_headers.pop();
                assert(s5.headers.len() > 0 ==> self@.headers =~= s5.headers.drop_last());
                let exit = match self.fresh_block() {
                    Ok(b) => b,
                    Err(e) => return Err(e),
                };
                self.finish_block(Terminator::Jump(exit));
                self.pop_scope();
                self.start_block(exit);
                let mut entries: Vec<(BlockId, VarId)> = Vec::new();
                entries.push((body_exit, v));
                assert(entries@ =~= seq![(body_exit, v)]);
                self.emit_phi(entries)
            },
            _ => Err(malformed("loop bindings must be a vector")),
        }
    }

    /// `recur`: back to the header of the innermost loop, with new values for its variables.
    fn lower_recur(&mut self, fs: &Vec<Form>) -> (r: Result<VarId, LowerError>)
        requires
            fs@.len() > 0,
        ensures
            agrees(r, final(self)@, lower_recur(old(self)@, fs@)),
        decreases fs@, fs@.len(), 1int,
    {
        let args = match self.lower_forms(fs, 1) {
            Ok(vs) => vs,
            Err(e) => return Err(e),
        };
        let n: usize = self.loop_headers.len();
        if n == 0 {
            return Err(malformed("recur outside of loop"));
        }
        let header = self.loop_headers[n - 1].0;
        assert(self@.headers.last().0 == header);
        self.feed_header(header, &args);
        self.dead_end(Terminator::RecurJump { target: header, args })
    }

    /// `def`: a name of the current namespace, and its value, nil where it is missing.
    fn lower_def(&mut self, fs: &Vec<Form>) -> (r: Result<VarId, LowerError>)
        ensures
            agrees(r, final(self)@, lower_def(old(self)@, fs@)),
        decreases fs@, fs@.len(), 1int,
    {
        if fs.len() < 2 {
            return Err(malformed("def requires a name"));
        }
        let name = match name_of_def(&fs[1].kind) {
            Some(name) => name,
            None => return Err(malformed("def requires a symbol name")),
        };
        let v = match self.lower_or_nil(fs, 2) {
            Ok(v) => v,
            Err(e) => return Err(e),
        };
        let ns = self.current_ns.clone();
        let dst = match self.fresh_var() {
            Ok(dst) => dst,
            Err(e) => return Err(e),
        };
        self.emit(Inst::DefVar(dst, ns, name, v));
        Ok(dst)
    }

    /// `defn`: a name, a docstring that is skipped, and the source of a function of that name.
    fn lower_defn(&mut self, fs: &Vec<Form>) -> (r: Result<VarId, LowerError>)
        ensures
            agrees(r, final(self)@, lower_defn(old(self)@, fs@)),
    {
        if fs.len() < 2 {
            return Err(malformed("defn requires a name"));
        }
        let name = match &fs[1].kind {
            FormKind::Symbol(name) => name.clone(),
            _ => return Err(malformed("defn requires a symbol name")),
        };
        let mut from: usize = 2;
        if fs.len() > 3 {
            if let FormKind::Str(_) = &fs[2].kind {
                from = 3;
            }
        }
        let v = match self.lower_closure(Some(name.clone()), fs, from) {
            Ok(v) => v,
            Err(e) => return Err(e),
        };
        let ns = self.current_ns.clone();
        let dst = match self.fresh_var() {
            Ok(dst) => dst,
            Err(e) => return Err(e),
        };
        self.emit(Inst::DefVar(dst, ns, name, v));
        Ok(dst)
    }

    /// `throw`: nothing follows it.
    fn lower_throw(&mut self, fs: &Vec<Form>) -> (r: Result<VarId, LowerError>)
        ensures
            agrees(r, final(self)@, lower_throw(old(self)@, fs@)),
        decreases fs@, fs@.len(), 1int,
    {
        if fs.len() != 2 {
            return Err(malformed("throw expects 1 argument"));
        }
        let v = match self.lower_form(&fs[1]) {
            Ok(v) => v,
            Err(e) => return Err(e),
        };
        self.emit(Inst::Throw(v));
        self.dead_end(Terminator::Unreachable)
    }

    /// `set!`: the value is the result.
    fn lower_set_bang(&mut self, fs: &Vec<Form>) -> (r: Result<VarId, LowerError>)
        ensures
            agrees(r, final(self)@, lower_set_bang(old(self)@, fs@)),
        decreases fs@, fs@.len(), 1int,
    {
        if fs.len() != 3 {
            return Err(malformed("set! expects 2 arguments"));
        }
        let var = match self.lower_form(&fs[1]) {
            Ok(v) => v,
            Err(e) => return Err(e),
        };
        let v = match self.lower_form(&fs[2]) {
            Ok(v) => v,
            Err(e) => return Err(e),
        };
        self.emit(Inst::SetBang(var, v));
        Ok(v)
    }

    /// `and`: the forms from `a` on, up to the first that is false.
    fn lower_and(&mut self, fs: &Vec<Form>, a: usize) -> (r: Result<VarId, LowerError>)
        requires
            a <= fs@.len(),
        ensures
            agrees(r, final(self)@, lower_and(old(self)@, fs@, a as int)),
        decreases fs@, fs@.len() - a, 1int,
    {
        let n: usize = fs.len();
        if a >= n {
            return self.emit_const(Const::Bool(true));
        }
        if n - a == 1 {
            return self.lower_form(&fs[a]);
        }
        let first = match self.lower_form(&fs[a]) {
            Ok(v) => v,
            Err(e) => return Err(e),
        };
        let rest = match self.fresh_block() {
            Ok(b) => b,
            Err(e) => return Err(e),
        };
        let join = match self.fresh_block() {
            Ok(b) => b,
            Err(e) => return Err(e),
        };
        let first_exit = self.current_block;
        self.finish_block(Terminator::Branch { cond: first, then_block: rest, else_block: join });
        self.start_block(rest);
        let v = match self.lower_and(fs, a + 1) {
            Ok(v) => v,
            Err(e) => return Err(e),
        };
        let rest_exit = self.current_block;
        self.finish_block(Terminator::Jump(join));
        self.join_two(join, (first_exit, first), (rest_exit, v))
    }

    /// `or`: the forms from `a` on, up to the first that is true.
    fn lower_or(&mut self, fs: &Vec<Form>, a: usize) -> (r: Result<VarId, LowerError>)
        requires
            a <= fs@.len(),
        ensures
            agrees(r, final(self)@, lower_or(old(self)@, fs@, a as int)),
        decreases fs@, fs@.len() - a, 1int,
    {
        let n: usize = fs.len();
        if a >= n {
            return self.emit_const(Const::Nil);
        }
        if n - a == 1 {
            return self.lower_form(&fs[a]);
        }
        let first = match self.lower_form(&fs[a]) {
            Ok(v) => v,
            Err(e) => return Err(e),
        };
        let rest = match self.fresh_block() {
            Ok(b) => b,
            Err(e) => return Err(e),
        };
        let join = match self.fresh_block() {
            Ok(b) => b,
            Err(e) => return Err(e),
        };
        let first_exit = self.current_block;
        self.finish_block(Terminator::Branch { cond: first, then_block: join, else_block: rest });
        self.start_block(rest);
        let v = match self.lower_or(fs, a + 1) {
            Ok(v) => v,
            Err(e) => return Err(e),
        };
        let rest_exit = self.current_block;
        self.finish_block(Terminator::Jump(join));
        self.join_two(join, (first_exit, first), (rest_exit, v))
    }

    /// Makes the parameters: a value each, bound to its name.
    fn add_params(&mut self, names: &Vec<String>) -> (r: Result<(), LowerError>)
        ensures
            agrees_state(r, final(self)@, add_params(old(self)@, names@, 0)),
    {
        let ghost want = add_params(self@, names@, 0);
        let mut i: usize = 0;
        while i < names.len()
            invariant
                i <= names@.len(),
                want == add_params(old(self)@, names@, 0),
                want == add_params(self@, names@, i as int),
            decreases names@.len() - i,
        {
            match self.fresh_var() {
                Ok(v) => {
                    let ghost s1 = self@;
                    self.func.params.push((names[i].clone(), v));
                    assert(self@.params =~= s1.params.push((names@[i as int]@, v)));
                    self.bind_local(names[i].as_str(), v);
                },
                Err(e) => {
                    assert(want == Err::<LowerView, LowerErrorView>(e@));
                    return Err(e);
                },
            }
            i += 1;
        }
        Ok(())
    }

    /// Lowers a function: its parameters, its body, and the return of what that yields.
    pub fn lower_function(self, params: &Vec<String>, body: &Vec<Form>) -> (r: Result<IrFunction, LowerError>)
        ensures
            match (r, lower_function(self@, params@, body@)) {
                (Ok(f), Ok(want)) => ir::function_view(f) == want,
                (Err(e), Err(want)) => e@ == want,
                _ => false,
            },
    {
        let mut s = self;
        match s.add_params(params) {
            Ok(_) => {},
            Err(e) => return Err(e),
        }
        let v = match s.lower_body(body, 0) {
            Ok(v) => v,
            Err(e) => return Err(e),
        };
        s.finish_block(Terminator::Return(v));
        let f = IrFunction {
            name: s.func.name,
            params: s.func.params,
            blocks: s.func.blocks,
            next_var: s.func.next_var,
            next_block: s.func.next_block,
            span: None,
            subfunctions: Vec::new(),
            is_async: false,
            local_seed_reprs: Vec::new(),
            pins: Vec::new(),
        };
        assert(ir::function_view(f).pins =~= Seq::empty());
        assert(ir::function_view(f).subfunctions =~= Seq::empty());
        assert(ir::function_view(f).local_seed_reprs =~= Seq::empty());
        Ok(f)
    }
}

/// Lowers the body of a function of namespace `ns`.
pub fn lower_fn_body(name: Option<&str>, ns: &str, params: &Vec<String>, body: &Vec<Form>) -> (r: Result<IrFunction, LowerError>)
    ensures
        ({
            let named = match name {
                Some(t) => Some(t@),
                None => None,
            };
            match (r, lower_function(initial(named, ns@), params@, body@)) {
                (Ok(f), Ok(want)) => ir::function_view(f) == want,
                (Err(e), Err(want)) => e@ == want,
                _ => false,
            }
        }),
{
    let named = match name {
        Some(t) => Some(t.to_owned()),
        None => None,
    };
    let lowering = AstLowering::new(named, ns);
    lowering.lower_function(params, body)
}

} // verus!
