//! Reads functions that come as plain data: maps, vectors, keywords and scalars.
use crate::double;
use crate::ir;
use crate::ir::{Block, BlockId, BlockView, ClosureTemplate, Const, ConstView, FunctionView, Inst, InstView, IrFunction, KnownFn, Span, SpanView, TemplateView, TermView, Terminator, VarId};
use crate::text::same;
use crate::value::{copy_value, Value, ValueView};
use vstd::prelude::*;
use vstd::string::*;

verus! {

/// What was expected, in words, and where the words end in a kind, the value in whose place it was.
#[derive(Debug)]
pub struct WrongType {
    pub words: String,
    pub got: Option<Value>,
}

/// Why data could not be read as a function.
#[derive(Debug)]
pub enum ConvertError {
    /// A required field is missing, or nil.
    MissingField(String),
    /// A field has the wrong type.
    TypeError(WrongType),
    /// A keyword names nothing that is known.
    UnknownVariant(String),
}

/// Why data could not be read as a function.
pub enum ConvView {
    MissingField(Seq<char>),
    TypeError(Seq<char>, Option<ValueView>),
    UnknownVariant(Seq<char>),
}

impl View for ConvertError {
    type V = ConvView;

    open spec fn view(&self) -> ConvView {
        match *self {
            ConvertError::MissingField(t) => ConvView::MissingField(t@),
            ConvertError::TypeError(t) => ConvView::TypeError(
                t.words@,
                match t.got {
                    Some(v) => Some(v@),
                    None => None,
                },
            ),
            ConvertError::UnknownVariant(t) => ConvView::UnknownVariant(t@),
        }
    }
}

impl ConvertError {
    /// The error in words.  Where it is about a value, `kind` is what the host calls its kind.
    pub fn message(&self, kind: &str) -> (r: String)
        ensures
            r@ == (match self@ {
                ConvView::MissingField(t) => "missing field: "@ + t,
                ConvView::TypeError(t, got) => "type error: "@ + t + (if got is Some { kind@ } else { Seq::empty() }),
                ConvView::UnknownVariant(t) => "unknown variant: "@ + t,
            }),
    {
        match self {
            ConvertError::MissingField(t) => "missing field: ".to_owned().concat(t.as_str()),
            ConvertError::TypeError(t) => {
                let words = "type error: ".to_owned().concat(t.words.as_str());
                match &t.got {
                    Some(_) => words.concat(kind),
                    None => {
                        assert("type error: "@ + t.words@ + Seq::empty() =~= words@);
                        words
                    },
                }
            },
            ConvertError::UnknownVariant(t) => "unknown variant: ".to_owned().concat(t.as_str()),
        }
    }
}

/// `r` is what `want` says, for a type that is its own view.
pub open spec fn agrees<T>(r: Result<T, ConvertError>, want: Result<T, ConvView>) -> bool {
    match (r, want) {
        (Ok(a), Ok(b)) => a == b,
        (Err(e), Err(f)) => e@ == f,
        _ => false,
    }
}

/// `r` is what `want` says, by its view.
pub open spec fn agrees_view<T: View>(r: Result<T, ConvertError>, want: Result<T::V, ConvView>) -> bool {
    match (r, want) {
        (Ok(a), Ok(b)) => a@ == b,
        (Err(e), Err(f)) => e@ == f,
        _ => false,
    }
}

/// `f` of what `r` holds; an error stays as it is.
pub open spec fn bind<A, B>(r: Result<A, ConvView>, f: spec_fn(A) -> Result<B, ConvView>) -> Result<B, ConvView> {
    match r {
        Ok(a) => f(a),
        Err(e) => Err(e),
    }
}

/// A value is the keyword `key`, without a namespace.
pub open spec fn is_key(v: Value, key: Seq<char>) -> bool {
    match v {
        Value::Keyword(n) => n.ns is None && n.name@ == key,
        _ => false,
    }
}

/// The position, from `i` on, of the entry for `key`; the number of entries where there is none.
pub open spec fn entry_of(m: Seq<(Value, Value)>, key: Seq<char>, i: int) -> int
    decreases m.len() - i,
{
    if i < 0 || i >= m.len() {
        m.len() as int
    } else if is_key(m[i].0, key) {
        i
    } else {
        entry_of(m, key, i + 1)
    }
}

/// The field `key` of a map; nil counts as missing.
pub open spec fn field(m: Seq<(Value, Value)>, key: Seq<char>) -> Option<Value> {
    let i = entry_of(m, key, 0);
    if i < m.len() && !(m[i].1 is Nil) { Some(m[i].1) } else { None }
}

/// The field `key`, which has to be there.
pub open spec fn need(m: Seq<(Value, Value)>, key: Seq<char>) -> Result<Value, ConvView> {
    match field(m, key) {
        Some(v) => Ok(v),
        None => Err(ConvView::MissingField(key)),
    }
}

/// `what` was expected in place of `v`.
pub open spec fn expected<T>(what: Seq<char>, v: Value) -> Result<T, ConvView> {
    Err(ConvView::TypeError("expected "@ + what + ", got "@, Some(v@)))
}

pub open spec fn map_of(v: Value) -> Result<Seq<(Value, Value)>, ConvView> {
    match v {
        Value::Dict(m) => Ok(m@),
        _ => expected("map"@, v),
    }
}

pub open spec fn long_of(v: Value) -> Result<i64, ConvView> {
    match v {
        Value::Long(n) => Ok(n),
        _ => expected("long"@, v),
    }
}

/// The low 32 bits of an integer.
pub open spec fn u32_of(v: Value) -> Result<u32, ConvView> {
    match v {
        Value::Long(n) => Ok(n as u32),
        _ => expected("long"@, v),
    }
}

pub open spec fn text_of(v: Value) -> Result<Seq<char>, ConvView> {
    match v {
        Value::Str(t) => Ok(t@),
        _ => expected("string"@, v),
    }
}

/// The name of a keyword, without its namespace.
pub open spec fn keyword_of(v: Value) -> Result<Seq<char>, ConvView> {
    match v {
        Value::Keyword(n) => Ok(n.name@),
        _ => expected("keyword"@, v),
    }
}

/// The items of a vector or list; nil has none.
pub open spec fn items_of(v: Value) -> Result<Seq<Value>, ConvView> {
    match v {
        Value::Vector(vs) => Ok(vs@),
        Value::List(vs) => Ok(vs@),
        Value::Nil => Ok(Seq::empty()),
        _ => expected("vector/list"@, v),
    }
}

pub open spec fn var_of(v: Value) -> Result<VarId, ConvView> {
    bind(u32_of(v), |n: u32| Ok(VarId(n)))
}

pub open spec fn block_of(v: Value) -> Result<BlockId, ConvView> {
    bind(u32_of(v), |n: u32| Ok(BlockId(n)))
}

/// The values named by the items from `i` on, behind `done`.
pub open spec fn vars_of(items: Seq<Value>, i: int, done: Seq<VarId>) -> Result<Seq<VarId>, ConvView>
    decreases items.len() - i,
{
    if i < 0 || i >= items.len() {
        Ok(done)
    } else {
        match var_of(items[i]) {
            Ok(v) => vars_of(items, i + 1, done.push(v)),
            Err(e) => Err(e),
        }
    }
}

/// The texts from `i` on, behind `done`.
pub open spec fn texts_of(items: Seq<Value>, i: int, done: Seq<Seq<char>>) -> Result<Seq<Seq<char>>, ConvView>
    decreases items.len() - i,
{
    if i < 0 || i >= items.len() {
        Ok(done)
    } else {
        match text_of(items[i]) {
            Ok(t) => texts_of(items, i + 1, done.push(t)),
            Err(e) => Err(e),
        }
    }
}

/// The counts from `i` on, behind `done`.
pub open spec fn counts_of(items: Seq<Value>, i: int, done: Seq<usize>) -> Result<Seq<usize>, ConvView>
    decreases items.len() - i,
{
    if i < 0 || i >= items.len() {
        Ok(done)
    } else {
        match long_of(items[i]) {
            Ok(n) => counts_of(items, i + 1, done.push(n as usize)),
            Err(e) => Err(e),
        }
    }
}

/// Two items, or else the error `wrong`.
pub open spec fn two_of(v: Value, wrong: Seq<char>) -> Result<(Value, Value), ConvView> {
    match items_of(v) {
        Ok(items) => if items.len() == 2 {
            Ok((items[0], items[1]))
        } else {
            Err(ConvView::TypeError(wrong, None))
        },
        Err(e) => Err(e),
    }
}

pub open spec fn pair_of(v: Value) -> Result<(VarId, VarId), ConvView> {
    bind(two_of(v, "map pair must be [k v]"@), |p: (Value, Value)| bind(var_of(p.0), |a: VarId| bind(var_of(p.1), |b: VarId| Ok((a, b)))))
}

pub open spec fn phi_entry_of(v: Value) -> Result<(BlockId, VarId), ConvView> {
    bind(two_of(v, "phi entry must be [block-id var-id]"@), |p: (Value, Value)| bind(block_of(p.0), |a: BlockId| bind(var_of(p.1), |b: VarId| Ok((a, b)))))
}

pub open spec fn param_of(v: Value) -> Result<(Seq<char>, VarId), ConvView> {
    bind(two_of(v, "param must be [name var-id]"@), |p: (Value, Value)| bind(text_of(p.0), |a: Seq<char>| bind(var_of(p.1), |b: VarId| Ok((a, b)))))
}

pub open spec fn pairs_of(items: Seq<Value>, i: int, done: Seq<(VarId, VarId)>) -> Result<Seq<(VarId, VarId)>, ConvView>
    decreases items.len() - i,
{
    if i < 0 || i >= items.len() {
        Ok(done)
    } else {
        match pair_of(items[i]) {
            Ok(p) => pairs_of(items, i + 1, done.push(p)),
            Err(e) => Err(e),
        }
    }
}

pub open spec fn phi_entries_of(items: Seq<Value>, i: int, done: Seq<(BlockId, VarId)>) -> Result<Seq<(BlockId, VarId)>, ConvView>
    decreases items.len() - i,
{
    if i < 0 || i >= items.len() {
        Ok(done)
    } else {
        match phi_entry_of(items[i]) {
            Ok(p) => phi_entries_of(items, i + 1, done.push(p)),
            Err(e) => Err(e),
        }
    }
}

pub open spec fn params_of(items: Seq<Value>, i: int, done: Seq<(Seq<char>, VarId)>) -> Result<Seq<(Seq<char>, VarId)>, ConvView>
    decreases items.len() - i,
{
    if i < 0 || i >= items.len() {
        Ok(done)
    } else {
        match param_of(items[i]) {
            Ok(p) => params_of(items, i + 1, done.push(p)),
            Err(e) => Err(e),
        }
    }
}

pub open spec fn var_field(m: Seq<(Value, Value)>, key: Seq<char>) -> Result<VarId, ConvView> {
    bind(need(m, key), |v: Value| var_of(v))
}

pub open spec fn block_field(m: Seq<(Value, Value)>, key: Seq<char>) -> Result<BlockId, ConvView> {
    bind(need(m, key), |v: Value| block_of(v))
}

pub open spec fn u32_field(m: Seq<(Value, Value)>, key: Seq<char>) -> Result<u32, ConvView> {
    bind(need(m, key), |v: Value| u32_of(v))
}

pub open spec fn text_field(m: Seq<(Value, Value)>, key: Seq<char>) -> Result<Seq<char>, ConvView> {
    bind(need(m, key), |v: Value| text_of(v))
}

pub open spec fn keyword_field(m: Seq<(Value, Value)>, key: Seq<char>) -> Result<Seq<char>, ConvView> {
    bind(need(m, key), |v: Value| keyword_of(v))
}

pub open spec fn items_field(m: Seq<(Value, Value)>, key: Seq<char>) -> Result<Seq<Value>, ConvView> {
    bind(need(m, key), |v: Value| items_of(v))
}

pub open spec fn vars_field(m: Seq<(Value, Value)>, key: Seq<char>) -> Result<Seq<VarId>, ConvView> {
    bind(items_field(m, key), |items: Seq<Value>| vars_of(items, 0, Seq::empty()))
}

pub open spec fn pairs_field(m: Seq<(Value, Value)>, key: Seq<char>) -> Result<Seq<(VarId, VarId)>, ConvView> {
    bind(items_field(m, key), |items: Seq<Value>| pairs_of(items, 0, Seq::empty()))
}

pub open spec fn entries_field(m: Seq<(Value, Value)>, key: Seq<char>) -> Result<Seq<(BlockId, VarId)>, ConvView> {
    bind(items_field(m, key), |items: Seq<Value>| phi_entries_of(items, 0, Seq::empty()))
}

pub open spec fn const_field(m: Seq<(Value, Value)>, key: Seq<char>) -> Result<ConstView, ConvView> {
    bind(need(m, key), |v: Value| const_of(v))
}

pub open spec fn known_field(m: Seq<(Value, Value)>, key: Seq<char>) -> Result<KnownFn, ConvView> {
    bind(keyword_field(m, key), |kw: Seq<char>| match known_of(kw) {
        Some(kf) => Ok(kf),
        None => Err(ConvView::UnknownVariant("unknown KnownFn: "@ + kw)),
    })
}

/// An optional text.
pub open spec fn text_opt_field(m: Seq<(Value, Value)>, key: Seq<char>) -> Result<Option<Seq<char>>, ConvView> {
    match field(m, key) {
        None => Ok(None),
        Some(v) => bind(text_of(v), |t: Seq<char>| Ok(Some(t))),
    }
}

/// An optional list of texts.
pub open spec fn texts_opt_field(m: Seq<(Value, Value)>, key: Seq<char>) -> Result<Seq<Seq<char>>, ConvView> {
    match field(m, key) {
        None => Ok(Seq::empty()),
        Some(v) => bind(items_of(v), |items: Seq<Value>| texts_of(items, 0, Seq::empty())),
    }
}

/// An optional list of counts.
pub open spec fn counts_opt_field(m: Seq<(Value, Value)>, key: Seq<char>) -> Result<Seq<usize>, ConvView> {
    match field(m, key) {
        None => Ok(Seq::empty()),
        Some(v) => bind(items_of(v), |items: Seq<Value>| counts_of(items, 0, Seq::empty())),
    }
}

/// The template of a closure: its arities take fixed numbers of parameters.
pub open spec fn template_of(m: Seq<(Value, Value)>) -> Result<TemplateView, ConvView> {
    bind(text_opt_field(m, "closure-name"@), |name: Option<Seq<char>>| bind(texts_opt_field(m, "arity-fn-names"@), |arity_fn_names: Seq<Seq<char>>|
        bind(counts_opt_field(m, "param-counts"@), |param_counts: Seq<usize>| bind(texts_opt_field(m, "capture-names"@), |capture_names: Seq<Seq<char>>|
            Ok(TemplateView {
                name,
                arity_fn_names,
                param_counts,
                is_variadic: Seq::new(arity_fn_names.len(), |i: int| false),
                capture_names,
                body_forms: Seq::empty(),
            })))))
}

/// The known function behind a keyword.
pub open spec fn known_of(kw: Seq<char>) -> Option<KnownFn> {
    if kw == "vector"@ {
        Some(KnownFn::Vector)
    } else if kw == "hash-map"@ {
        Some(KnownFn::HashMap)
    } else if kw == "hash-set"@ {
        Some(KnownFn::HashSet)
    } else if kw == "list"@ {
        Some(KnownFn::List)
    } else if kw == "assoc"@ {
        Some(KnownFn::Assoc)
    } else if kw == "dissoc"@ {
        Some(KnownFn::Dissoc)
    } else if kw == "conj"@ {
        Some(KnownFn::Conj)
    } else if kw == "disj"@ {
        Some(KnownFn::Disj)
    } else if kw == "get"@ {
        Some(KnownFn::Get)
    } else if kw == "nth"@ {
        Some(KnownFn::Nth)
    } else if kw == "count"@ {
        Some(KnownFn::Count)
    } else if kw == "contains"@ {
        Some(KnownFn::Contains)
    } else if kw == "transient"@ {
        Some(KnownFn::Transient)
    } else if kw == "assoc!"@ {
        Some(KnownFn::AssocBang)
    } else if kw == "conj!"@ {
        Some(KnownFn::ConjBang)
    } else if kw == "persistent!"@ {
        Some(KnownFn::PersistentBang)
    } else if kw == "first"@ {
        Some(KnownFn::First)
    } else if kw == "rest"@ {
        Some(KnownFn::Rest)
    } else if kw == "next"@ {
        Some(KnownFn::Next)
    } else if kw == "cons"@ {
        Some(KnownFn::Cons)
    } else if kw == "seq"@ {
        Some(KnownFn::ToSeq)
    } else if kw == "lazy-seq"@ {
        Some(KnownFn::LazySeq)
    } else if kw == "+"@ {
        Some(KnownFn::Add)
    } else if kw == "-"@ {
        Some(KnownFn::Sub)
    } else if kw == "*"@ {
        Some(KnownFn::Mul)
    } else if kw == "/"@ {
        Some(KnownFn::Div)
    } else if kw == "rem"@ {
        Some(KnownFn::Rem)
    } else if kw == "="@ {
        Some(KnownFn::Eq)
    } else if kw == "<"@ {
        Some(KnownFn::Lt)
    } else if kw == ">"@ {
        Some(KnownFn::Gt)
    } else if kw == "<="@ {
        Some(KnownFn::Lte)
    } else if kw == ">="@ {
        Some(KnownFn::Gte)
    } else if kw == "nil?"@ {
        Some(KnownFn::IsNil)
    } else if kw == "seq?"@ {
        Some(KnownFn::IsSeq)
    } else if kw == "vector?"@ {
        Some(KnownFn::IsVector)
    } else if kw == "map?"@ {
        Some(KnownFn::IsMap)
    } else if kw == "identical?"@ {
        Some(KnownFn::Identical)
    } else if kw == "str"@ {
        Some(KnownFn::Str)
    } else if kw == "deref"@ {
        Some(KnownFn::Deref)
    } else if kw == "println"@ {
        Some(KnownFn::Println)
    } else if kw == "pr"@ {
        Some(KnownFn::Pr)
    } else if kw == "atom-deref"@ {
        Some(KnownFn::AtomDeref)
    } else if kw == "atom-reset"@ {
        Some(KnownFn::AtomReset)
    } else if kw == "atom-swap"@ {
        Some(KnownFn::AtomSwap)
    } else if kw == "apply"@ {
        Some(KnownFn::Apply)
    } else if kw == "try-catch-finally"@ {
        Some(KnownFn::TryCatchFinally)
    } else {
        None
    }
}

/// A literal, by the type that `m` names.
pub open spec fn const_by_type(ty: Seq<char>, m: Seq<(Value, Value)>) -> Result<ConstView, ConvView> {
    if ty == "nil"@ {
        Ok(ConstView::Nil)
    } else if ty == "bool"@ {
        match need(m, "val"@) {
            Ok(Value::Bool(b)) => Ok(ConstView::Bool(b)),
            Ok(_) => Err(ConvView::TypeError("expected bool for :bool const"@, None)),
            Err(e) => Err(e),
        }
    } else if ty == "long"@ {
        bind(need(m, "val"@), |v: Value| bind(long_of(v), |n: i64| Ok(ConstView::Long(n))))
    } else if ty == "double"@ {
        match need(m, "val"@) {
            Ok(Value::Double(d)) => Ok(ConstView::Double(d)),
            Ok(Value::Long(n)) => Ok(ConstView::Double(double::double_bits(n as int) as u64)),
            Ok(_) => Err(ConvView::TypeError("expected double for :double const"@, None)),
            Err(e) => Err(e),
        }
    } else if ty == "string"@ {
        bind(text_field(m, "val"@), |t: Seq<char>| Ok(ConstView::Str(t)))
    } else if ty == "keyword"@ {
        bind(text_field(m, "val"@), |t: Seq<char>| Ok(ConstView::Keyword(t)))
    } else if ty == "symbol"@ {
        bind(text_field(m, "val"@), |t: Seq<char>| Ok(ConstView::Symbol(t)))
    } else if ty == "char"@ {
        match need(m, "val"@) {
            Ok(Value::Char(c)) => Ok(ConstView::Char(c)),
            Ok(_) => Err(ConvView::TypeError("expected char for :char const"@, None)),
            Err(e) => Err(e),
        }
    } else {
        Err(ConvView::UnknownVariant("unknown const type: "@ + ty))
    }
}

/// A literal.
pub open spec fn const_of(v: Value) -> Result<ConstView, ConvView> {
    bind(map_of(v), |m: Seq<(Value, Value)>| bind(keyword_field(m, "type"@), |ty: Seq<char>| const_by_type(ty, m)))
}

pub open spec fn const_inst(m: Seq<(Value, Value)>) -> Result<InstView, ConvView> {
    bind(var_field(m, "dst"@), |dst: VarId| bind(const_field(m, "value"@), |c: ConstView| Ok(InstView::Const(dst, c))))
}

pub open spec fn load_local_inst(m: Seq<(Value, Value)>) -> Result<InstView, ConvView> {
    bind(var_field(m, "dst"@), |dst: VarId| bind(text_field(m, "name"@), |name: Seq<char>| Ok(InstView::LoadLocal(dst, name))))
}

pub open spec fn load_global_inst(m: Seq<(Value, Value)>) -> Result<InstView, ConvView> {
    bind(var_field(m, "dst"@), |dst: VarId| bind(text_field(m, "ns"@), |ns: Seq<char>| bind(text_field(m, "name"@), |name: Seq<char>| Ok(InstView::LoadGlobal(dst, ns, name)))))
}

pub open spec fn alloc_vector_inst(m: Seq<(Value, Value)>) -> Result<InstView, ConvView> {
    bind(var_field(m, "dst"@), |dst: VarId| bind(vars_field(m, "elems"@), |elems: Seq<VarId>| Ok(InstView::AllocVector(dst, elems))))
}

pub open spec fn alloc_map_inst(m: Seq<(Value, Value)>) -> Result<InstView, ConvView> {
    bind(var_field(m, "dst"@), |dst: VarId| bind(pairs_field(m, "pairs"@), |pairs: Seq<(VarId, VarId)>| Ok(InstView::AllocMap(dst, pairs))))
}

pub open spec fn alloc_set_inst(m: Seq<(Value, Value)>) -> Result<InstView, ConvView> {
    bind(var_field(m, "dst"@), |dst: VarId| bind(vars_field(m, "elems"@), |elems: Seq<VarId>| Ok(InstView::AllocSet(dst, elems))))
}

pub open spec fn alloc_list_inst(m: Seq<(Value, Value)>) -> Result<InstView, ConvView> {
    bind(var_field(m, "dst"@), |dst: VarId| bind(vars_field(m, "elems"@), |elems: Seq<VarId>| Ok(InstView::AllocList(dst, elems))))
}

pub open spec fn alloc_cons_inst(m: Seq<(Value, Value)>) -> Result<InstView, ConvView> {
    bind(var_field(m, "dst"@), |dst: VarId| bind(var_field(m, "head"@), |head: VarId| bind(var_field(m, "tail"@), |tail: VarId| Ok(InstView::AllocCons(dst, head, tail)))))
}

pub open spec fn alloc_closure_inst(m: Seq<(Value, Value)>) -> Result<InstView, ConvView> {
    bind(var_field(m, "dst"@), |dst: VarId| bind(vars_field(m, "captures"@), |captures: Seq<VarId>| bind(template_of(m), |t: TemplateView| Ok(InstView::AllocClosure(dst, t, captures)))))
}

pub open spec fn call_known_inst(m: Seq<(Value, Value)>) -> Result<InstView, ConvView> {
    bind(var_field(m, "dst"@), |dst: VarId| bind(known_field(m, "func"@), |known: KnownFn| bind(vars_field(m, "args"@), |args: Seq<VarId>| Ok(InstView::CallKnown(dst, known, args)))))
}

pub open spec fn call_inst(m: Seq<(Value, Value)>) -> Result<InstView, ConvView> {
    bind(var_field(m, "dst"@), |dst: VarId| bind(var_field(m, "callee"@), |callee: VarId| bind(vars_field(m, "args"@), |args: Seq<VarId>| Ok(InstView::Call(dst, callee, args)))))
}

pub open spec fn deref_inst(m: Seq<(Value, Value)>) -> Result<InstView, ConvView> {
    bind(var_field(m, "dst"@), |dst: VarId| bind(var_field(m, "src"@), |src: VarId| Ok(InstView::Deref(dst, src))))
}

pub open spec fn def_var_inst(m: Seq<(Value, Value)>) -> Result<InstView, ConvView> {
    bind(var_field(m, "dst"@), |dst: VarId| bind(text_field(m, "ns"@), |ns: Seq<char>| bind(text_field(m, "name"@), |name: Seq<char>| bind(var_field(m, "value"@), |value: VarId| Ok(InstView::DefVar(dst, ns, name, value))))))
}

pub open spec fn set_bang_inst(m: Seq<(Value, Value)>) -> Result<InstView, ConvView> {
    bind(var_field(m, "var"@), |var: VarId| bind(var_field(m, "value"@), |value: VarId| Ok(InstView::SetBang(var, value))))
}

pub open spec fn throw_inst(m: Seq<(Value, Value)>) -> Result<InstView, ConvView> {
    bind(var_field(m, "value"@), |value: VarId| Ok(InstView::Throw(value)))
}

pub open spec fn phi_inst(m: Seq<(Value, Value)>) -> Result<InstView, ConvView> {
    bind(var_field(m, "dst"@), |dst: VarId| bind(entries_field(m, "entries"@), |entries: Seq<(BlockId, VarId)>| Ok(InstView::Phi(dst, entries))))
}

pub open spec fn recur_inst(m: Seq<(Value, Value)>) -> Result<InstView, ConvView> {
    bind(vars_field(m, "args"@), |args: Seq<VarId>| Ok(InstView::Recur(args)))
}

pub open spec fn source_loc_inst(m: Seq<(Value, Value)>) -> Result<InstView, ConvView> {
    bind(text_field(m, "file"@), |file: Seq<char>| bind(u32_field(m, "line"@), |line: u32| bind(u32_field(m, "col"@), |col: u32| Ok(InstView::SourceLoc(SpanView { file, start: 0, end: 0, line, col })))))
}

/// An instruction, by its name and operands.
pub open spec fn inst_of(op: Seq<char>, m: Seq<(Value, Value)>) -> Result<InstView, ConvView> {
    if op == "const"@ {
        const_inst(m)
    } else if op == "load-local"@ {
        load_local_inst(m)
    } else if op == "load-global"@ {
        load_global_inst(m)
    } else if op == "alloc-vector"@ {
        alloc_vector_inst(m)
    } else if op == "alloc-map"@ {
        alloc_map_inst(m)
    } else if op == "alloc-set"@ {
        alloc_set_inst(m)
    } else if op == "alloc-list"@ {
        alloc_list_inst(m)
    } else if op == "alloc-cons"@ {
        alloc_cons_inst(m)
    } else if op == "alloc-closure"@ {
        alloc_closure_inst(m)
    } else if op == "call-known"@ {
        call_known_inst(m)
    } else if op == "call"@ {
        call_inst(m)
    } else if op == "deref"@ {
        deref_inst(m)
    } else if op == "def-var"@ {
        def_var_inst(m)
    } else if op == "set!"@ {
        set_bang_inst(m)
    } else if op == "throw"@ {
        throw_inst(m)
    } else if op == "phi"@ {
        phi_inst(m)
    } else if op == "recur"@ {
        recur_inst(m)
    } else if op == "source-loc"@ {
        source_loc_inst(m)
    } else {
        Err(ConvView::UnknownVariant("unknown inst op: "@ + op))
    }
}

/// An instruction.
pub open spec fn to_inst(v: Value) -> Result<InstView, ConvView> {
    bind(map_of(v), |m: Seq<(Value, Value)>| bind(keyword_field(m, "op"@), |op: Seq<char>| inst_of(op, m)))
}

/// A terminator, by its name and operands.
pub open spec fn term_of(op: Seq<char>, m: Seq<(Value, Value)>) -> Result<TermView, ConvView> {
    if op == "jump"@ {
        bind(block_field(m, "target"@), |target: BlockId| Ok(TermView::Jump(target)))
    } else if op == "branch"@ {
        bind(var_field(m, "cond"@), |cond: VarId| bind(block_field(m, "then-block"@), |then_block: BlockId| bind(block_field(m, "else-block"@), |else_block: BlockId| Ok(TermView::Branch(cond, then_block, else_block)))))
    } else if op == "return"@ {
        bind(var_field(m, "var"@), |var: VarId| Ok(TermView::Return(var)))
    } else if op == "recur-jump"@ {
        bind(block_field(m, "target"@), |target: BlockId| bind(vars_field(m, "args"@), |args: Seq<VarId>| Ok(TermView::RecurJump(target, args))))
    } else if op == "unreachable"@ {
        Ok(TermView::Unreachable)
    } else {
        Err(ConvView::UnknownVariant("unknown terminator op: "@ + op))
    }
}

/// A terminator.
pub open spec fn to_terminator(v: Value) -> Result<TermView, ConvView> {
    bind(map_of(v), |m: Seq<(Value, Value)>| bind(keyword_field(m, "op"@), |op: Seq<char>| term_of(op, m)))
}

/// The instructions from `i` on, behind `done`.
pub open spec fn to_insts(items: Seq<Value>, i: int, done: Seq<InstView>) -> Result<Seq<InstView>, ConvView>
    decreases items.len() - i,
{
    if i < 0 || i >= items.len() {
        Ok(done)
    } else {
        match to_inst(items[i]) {
            Ok(x) => to_insts(items, i + 1, done.push(x)),
            Err(e) => Err(e),
        }
    }
}

pub open spec fn insts_field(m: Seq<(Value, Value)>, key: Seq<char>) -> Result<Seq<InstView>, ConvView> {
    bind(items_field(m, key), |items: Seq<Value>| to_insts(items, 0, Seq::empty()))
}

/// A block.
pub open spec fn to_block(v: Value) -> Result<BlockView, ConvView> {
    bind(map_of(v), |m: Seq<(Value, Value)>| bind(block_field(m, "id"@), |id: BlockId| bind(insts_field(m, "phis"@), |phis: Seq<InstView>|
        bind(insts_field(m, "insts"@), |insts: Seq<InstView>| bind(bind(need(m, "terminator"@), |t: Value| to_terminator(t)), |terminator: TermView|
            Ok(BlockView { id, phis, insts, terminator }))))))
}

/// The blocks from `i` on, behind `done`.
pub open spec fn to_blocks(items: Seq<Value>, i: int, done: Seq<BlockView>) -> Result<Seq<BlockView>, ConvView>
    decreases items.len() - i,
{
    if i < 0 || i >= items.len() {
        Ok(done)
    } else {
        match to_block(items[i]) {
            Ok(x) => to_blocks(items, i + 1, done.push(x)),
            Err(e) => Err(e),
        }
    }
}

/// What a function is, apart from its subfunctions.
pub open spec fn function_head(m: Seq<(Value, Value)>) -> Result<FunctionView, ConvView> {
    bind(text_opt_field(m, "name"@), |name: Option<Seq<char>>| bind(u32_field(m, "next-var"@), |next_var: u32| bind(u32_field(m, "next-block"@), |next_block: u32|
        bind(bind(items_field(m, "params"@), |ps: Seq<Value>| params_of(ps, 0, Seq::empty())), |params: Seq<(Seq<char>, VarId)>|
            bind(bind(items_field(m, "blocks"@), |bs: Seq<Value>| to_blocks(bs, 0, Seq::empty())), |blocks: Seq<BlockView>|
                Ok(FunctionView {
                    name,
                    params,
                    blocks,
                    next_var,
                    next_block,
                    span: None,
                    subfunctions: Seq::empty(),
                    is_async: false,
                    local_seed_reprs: Seq::empty(),
                    pins: Seq::empty(),
                }))))))
}

/// A function, with the functions inside it.
pub open spec fn to_function(v: Value) -> Result<FunctionView, ConvView>
    decreases v,
{
    match v {
        Value::Dict(ps) => {
            let m = ps@;
            match function_head(m) {
                Err(e) => Err(e),
                Ok(head) => {
                    let i = entry_of(m, "subfunctions"@, 0);
                    let subs = if 0 <= i < m.len() {
                        match m[i].1 {
                            Value::Nil => Ok(Seq::empty()),
                            Value::Vector(vs) => to_functions(vs@),
                            Value::List(vs) => to_functions(vs@),
                            other => expected("vector/list"@, other),
                        }
                    } else {
                        Ok(Seq::empty())
                    };
                    match subs {
                        Err(e) => Err(e),
                        Ok(subfunctions) => Ok(FunctionView { subfunctions, ..head }),
                    }
                },
            }
        },
        _ => expected("map"@, v),
    }
}

/// A list of functions; the first that cannot be read decides.
pub open spec fn to_functions(vs: Seq<Value>) -> Result<Seq<FunctionView>, ConvView>
    decreases vs,
{
    if vs.len() == 0 {
        Ok(Seq::empty())
    } else {
        match to_functions(vs.drop_last()) {
            Err(e) => Err(e),
            Ok(done) => match to_function(vs.last()) {
                Err(e) => Err(e),
                Ok(f) => Ok(done.push(f)),
            },
        }
    }
}

/// The position of the entry for `key`.
fn find_entry(m: &Vec<(Value, Value)>, key: &str) -> (r: Option<usize>)
    ensures
        match r {
            Some(i) => i < m@.len() && i == entry_of(m@, key@, 0),
            None => entry_of(m@, key@, 0) == m@.len(),
        },
{
    let mut i: usize = 0;
    while i < m.len()
        invariant
            i <= m@.len(),
            entry_of(m@, key@, 0) == entry_of(m@, key@, i as int),
        decreases m@.len() - i,
    {
        if let Value::Keyword(n) = &m[i].0 {
            if n.ns.is_none() && same(n.name.as_str(), key) {
                return Some(i);
            }
        }
        i += 1;
    }
    None
}

/// The field `key` of a map; nil counts as missing.
fn get_field_opt<'a>(m: &'a Vec<(Value, Value)>, key: &str) -> (r: Option<&'a Value>)
    ensures
        match r {
            Some(v) => field(m@, key@) == Some(*v),
            None => field(m@, key@) is None,
        },
{
    match find_entry(m, key) {
        Some(i) => match &m[i].1 {
            Value::Nil => None,
            _ => Some(&m[i].1),
        },
        None => None,
    }
}

/// The field `key`, which has to be there.
fn get_field<'a>(m: &'a Vec<(Value, Value)>, key: &str) -> (r: Result<&'a Value, ConvertError>)
    ensures
        match r {
            Ok(v) => need(m@, key@) == Ok::<Value, ConvView>(*v),
            Err(e) => need(m@, key@) == Err::<Value, ConvView>(e@),
        },
{
    match get_field_opt(m, key) {
        Some(v) => Ok(v),
        None => Err(ConvertError::MissingField(key.to_owned())),
    }
}

fn wrong_type(what: &str, v: &Value) -> (r: ConvertError)
    ensures
        r@ == ConvView::TypeError("expected "@ + what@ + ", got "@, Some(v@)),
{
    ConvertError::TypeError(WrongType { words: "expected ".to_owned().concat(what).concat(", got "), got: Some(copy_value(v)) })
}

fn as_map(v: &Value) -> (r: Result<&Vec<(Value, Value)>, ConvertError>)
    ensures
        match r {
            Ok(m) => *v == Value::Dict(*m),
            Err(e) => map_of(*v) == Err::<Seq<(Value, Value)>, ConvView>(e@),
        },
{
    match v {
        Value::Dict(m) => Ok(m),
        other => Err(wrong_type("map", other)),
    }
}

fn as_long(v: &Value) -> (r: Result<i64, ConvertError>)
    ensures
        agrees(r, long_of(*v)),
{
    match v {
        Value::Long(n) => Ok(*n),
        other => Err(wrong_type("long", other)),
    }
}

fn as_u32(v: &Value) -> (r: Result<u32, ConvertError>)
    ensures
        agrees(r, u32_of(*v)),
{
    match v {
        Value::Long(n) => Ok(#[verifier::truncate] (*n as u32)),
        other => Err(wrong_type("long", other)),
    }
}

fn as_str(v: &Value) -> (r: Result<String, ConvertError>)
    ensures
        agrees_view(r, text_of(*v)),
{
    match v {
        Value::Str(t) => Ok(t.clone()),
        other => Err(wrong_type("string", other)),
    }
}

fn as_keyword_name(v: &Value) -> (r: Result<String, ConvertError>)
    ensures
        agrees_view(r, keyword_of(*v)),
{
    match v {
        Value::Keyword(n) => Ok(n.name.clone()),
        other => Err(wrong_type("keyword", other)),
    }
}

/// The items of a vector or list; nil has none, which `none` stands for.
fn as_vec<'a>(v: &'a Value, none: &'a Vec<Value>) -> (r: Result<&'a Vec<Value>, ConvertError>)
    requires
        none@.len() == 0,
    ensures
        match r {
            Ok(items) => items_of(*v) == Ok::<Seq<Value>, ConvView>(items@),
            Err(e) => items_of(*v) == Err::<Seq<Value>, ConvView>(e@),
        },
{
    match v {
        Value::Vector(vs) => Ok(vs),
        Value::List(vs) => Ok(vs),
        Value::Nil => {
            assert(none@ =~= Seq::<Value>::empty());
            Ok(none)
        },
        other => Err(wrong_type("vector/list", other)),
    }
}

fn as_var_id(v: &Value) -> (r: Result<VarId, ConvertError>)
    ensures
        agrees(r, var_of(*v)),
{
    match as_u32(v) {
        Ok(n) => Ok(VarId(n)),
        Err(e) => Err(e),
    }
}

fn as_block_id(v: &Value) -> (r: Result<BlockId, ConvertError>)
    ensures
        agrees(r, block_of(*v)),
{
    match as_u32(v) {
        Ok(n) => Ok(BlockId(n)),
        Err(e) => Err(e),
    }
}

fn read_var(m: &Vec<(Value, Value)>, key: &str) -> (r: Result<VarId, ConvertError>)
    ensures
        agrees(r, var_field(m@, key@)),
{
    match get_field(m, key) {
        Ok(v) => as_var_id(v),
        Err(e) => Err(e),
    }
}

fn read_block(m: &Vec<(Value, Value)>, key: &str) -> (r: Result<BlockId, ConvertError>)
    ensures
        agrees(r, block_field(m@, key@)),
{
    match get_field(m, key) {
        Ok(v) => as_block_id(v),
        Err(e) => Err(e),
    }
}

fn read_u32(m: &Vec<(Value, Value)>, key: &str) -> (r: Result<u32, ConvertError>)
    ensures
        agrees(r, u32_field(m@, key@)),
{
    match get_field(m, key) {
        Ok(v) => as_u32(v),
        Err(e) => Err(e),
    }
}

fn read_text(m: &Vec<(Value, Value)>, key: &str) -> (r: Result<String, ConvertError>)
    ensures
        agrees_view(r, text_field(m@, key@)),
{
    match get_field(m, key) {
        Ok(v) => as_str(v),
        Err(e) => Err(e),
    }
}

fn read_keyword(m: &Vec<(Value, Value)>, key: &str) -> (r: Result<String, ConvertError>)
    ensures
        agrees_view(r, keyword_field(m@, key@)),
{
    match get_field(m, key) {
        Ok(v) => as_keyword_name(v),
        Err(e) => Err(e),
    }
}

fn read_items<'a>(m: &'a Vec<(Value, Value)>, key: &str, none: &'a Vec<Value>) -> (r: Result<&'a Vec<Value>, ConvertError>)
    requires
        none@.len() == 0,
    ensures
        match r {
            Ok(items) => items_field(m@, key@) == Ok::<Seq<Value>, ConvView>(items@),
            Err(e) => items_field(m@, key@) == Err::<Seq<Value>, ConvView>(e@),
        },
{
    match get_field(m, key) {
        Ok(v) => as_vec(v, none),
        Err(e) => Err(e),
    }
}

fn as_var_id_vec(items: &Vec<Value>) -> (r: Result<Vec<VarId>, ConvertError>)
    ensures
        agrees_view(r, vars_of(items@, 0, Seq::empty())),
{
    let mut out: Vec<VarId> = Vec::new();
    let mut i: usize = 0;
    while i < items.len()
        invariant
            i <= items@.len(),
            vars_of(items@, 0, Seq::empty()) == vars_of(items@, i as int, out@),
        decreases items@.len() - i,
    {
        match as_var_id(&items[i]) {
            Ok(v) => {
                out.push(v);
            },
            Err(e) => return Err(e),
        }
        i += 1;
    }
    Ok(out)
}

fn read_vars(m: &Vec<(Value, Value)>, key: &str) -> (r: Result<Vec<VarId>, ConvertError>)
    ensures
        agrees_view(r, vars_field(m@, key@)),
{
    let none: Vec<Value> = Vec::new();
    match read_items(m, key, &none) {
        Ok(items) => as_var_id_vec(items),
        Err(e) => Err(e),
    }
}

/// Two items, or else the error `wrong`.
fn as_two<'a>(v: &'a Value, wrong: &str, none: &'a Vec<Value>) -> (r: Result<(&'a Value, &'a Value), ConvertError>)
    requires
        none@.len() == 0,
    ensures
        match r {
            Ok(p) => two_of(*v, wrong@) == Ok::<(Value, Value), ConvView>((*p.0, *p.1)),
            Err(e) => two_of(*v, wrong@) == Err::<(Value, Value), ConvView>(e@),
        },
{
    match as_vec(v, none) {
        Ok(items) => if items.len() == 2 {
            Ok((&items[0], &items[1]))
        } else {
            Err(ConvertError::TypeError(WrongType { words: wrong.to_owned(), got: None }))
        },
        Err(e) => Err(e),
    }
}

fn as_pair(v: &Value) -> (r: Result<(VarId, VarId), ConvertError>)
    ensures
        agrees(r, pair_of(*v)),
{
    let none: Vec<Value> = Vec::new();
    match as_two(v, "map pair must be [k v]", &none) {
        Err(e) => Err(e),
        Ok((x, y)) => match as_var_id(x) {
            Err(e) => Err(e),
            Ok(a) => match as_var_id(y) {
                Err(e) => Err(e),
                Ok(b) => Ok((a, b)),
            },
        },
    }
}

fn as_phi_entry(v: &Value) -> (r: Result<(BlockId, VarId), ConvertError>)
    ensures
        agrees(r, phi_entry_of(*v)),
{
    let none: Vec<Value> = Vec::new();
    match as_two(v, "phi entry must be [block-id var-id]", &none) {
        Err(e) => Err(e),
        Ok((x, y)) => match as_block_id(x) {
            Err(e) => Err(e),
            Ok(a) => match as_var_id(y) {
                Err(e) => Err(e),
                Ok(b) => Ok((a, b)),
            },
        },
    }
}

fn as_param(v: &Value) -> (r: Result<(String, VarId), ConvertError>)
    ensures
        match r {
            Ok(p) => param_of(*v) == Ok::<(Seq<char>, VarId), ConvView>((p.0@, p.1)),
            Err(e) => param_of(*v) == Err::<(Seq<char>, VarId), ConvView>(e@),
        },
{
    let none: Vec<Value> = Vec::new();
    match as_two(v, "param must be [name var-id]", &none) {
        Err(e) => Err(e),
        Ok((x, y)) => match as_str(x) {
            Err(e) => Err(e),
            Ok(a) => match as_var_id(y) {
                Err(e) => Err(e),
                Ok(b) => Ok((a, b)),
            },
        },
    }
}

fn read_pairs(m: &Vec<(Value, Value)>, key: &str) -> (r: Result<Vec<(VarId, VarId)>, ConvertError>)
    ensures
        agrees_view(r, pairs_field(m@, key@)),
{
    let none: Vec<Value> = Vec::new();
    let items = match read_items(m, key, &none) {
        Ok(items) => items,
        Err(e) => return Err(e),
    };
    let mut out: Vec<(VarId, VarId)> = Vec::new();
    let mut i: usize = 0;
    while i < items.len()
        invariant
            i <= items@.len(),
            pairs_field(m@, key@) == pairs_of(items@, i as int, out@),
        decreases items@.len() - i,
    {
        match as_pair(&items[i]) {
            Ok(p) => {
                out.push(p);
            },
            Err(e) => return Err(e),
        }
        i += 1;
    }
    Ok(out)
}

fn read_entries(m: &Vec<(Value, Value)>, key: &str) -> (r: Result<Vec<(BlockId, VarId)>, ConvertError>)
    ensures
        agrees_view(r, entries_field(m@, key@)),
{
    let none: Vec<Value> = Vec::new();
    let items = match read_items(m, key, &none) {
        Ok(items) => items,
        Err(e) => return Err(e),
    };
    let mut out: Vec<(BlockId, VarId)> = Vec::new();
    let mut i: usize = 0;
    while i < items.len()
        invariant
            i <= items@.len(),
            entries_field(m@, key@) == phi_entries_of(items@, i as int, out@),
        decreases items@.len() - i,
    {
        match as_phi_entry(&items[i]) {
            Ok(p) => {
                out.push(p);
            },
            Err(e) => return Err(e),
        }
        i += 1;
    }
    Ok(out)
}

/// The known function behind a keyword.
pub fn keyword_to_known_fn(kw: &str) -> (r: Option<KnownFn>)
    ensures
        r == known_of(kw@),
{
    if same(kw, "vector") {
        Some(KnownFn::Vector)
    } else if same(kw, "hash-map") {
        Some(KnownFn::HashMap)
    } else if same(kw, "hash-set") {
        Some(KnownFn::HashSet)
    } else if same(kw, "list") {
        Some(KnownFn::List)
    } else if same(kw, "assoc") {
        Some(KnownFn::Assoc)
    } else if same(kw, "dissoc") {
        Some(KnownFn::Dissoc)
    } else if same(kw, "conj") {
        Some(KnownFn::Conj)
    } else if same(kw, "disj") {
        Some(KnownFn::Disj)
    } else if same(kw, "get") {
        Some(KnownFn::Get)
    } else if same(kw, "nth") {
        Some(KnownFn::Nth)
    } else if same(kw, "count") {
        Some(KnownFn::Count)
    } else if same(kw, "contains") {
        Some(KnownFn::Contains)
    } else if same(kw, "transient") {
        Some(KnownFn::Transient)
    } else if same(kw, "assoc!") {
        Some(KnownFn::AssocBang)
    } else if same(kw, "conj!") {
        Some(KnownFn::ConjBang)
    } else if same(kw, "persistent!") {
        Some(KnownFn::PersistentBang)
    } else if same(kw, "first") {
        Some(KnownFn::First)
    } else if same(kw, "rest") {
        Some(KnownFn::Rest)
    } else if same(kw, "next") {
        Some(KnownFn::Next)
    } else if same(kw, "cons") {
        Some(KnownFn::Cons)
    } else if same(kw, "seq") {
        Some(KnownFn::ToSeq)
    } else if same(kw, "lazy-seq") {
        Some(KnownFn::LazySeq)
    } else if same(kw, "+") {
        Some(KnownFn::Add)
    } else if same(kw, "-") {
        Some(KnownFn::Sub)
    } else if same(kw, "*") {
        Some(KnownFn::Mul)
    } else if same(kw, "/") {
        Some(KnownFn::Div)
    } else if same(kw, "rem") {
        Some(KnownFn::Rem)
    } else if same(kw, "=") {
        Some(KnownFn::Eq)
    } else if same(kw, "<") {
        Some(KnownFn::Lt)
    } else if same(kw, ">") {
        Some(KnownFn::Gt)
    } else if same(kw, "<=") {
        Some(KnownFn::Lte)
    } else if same(kw, ">=") {
        Some(KnownFn::Gte)
    } else if same(kw, "nil?") {
        Some(KnownFn::IsNil)
    } else if same(kw, "seq?") {
        Some(KnownFn::IsSeq)
    } else if same(kw, "vector?") {
        Some(KnownFn::IsVector)
    } else if same(kw, "map?") {
        Some(KnownFn::IsMap)
    } else if same(kw, "identical?") {
        Some(KnownFn::Identical)
    } else if same(kw, "str") {
        Some(KnownFn::Str)
    } else if same(kw, "deref") {
        Some(KnownFn::Deref)
    } else if same(kw, "println") {
        Some(KnownFn::Println)
    } else if same(kw, "pr") {
        Some(KnownFn::Pr)
    } else if same(kw, "atom-deref") {
        Some(KnownFn::AtomDeref)
    } else if same(kw, "atom-reset") {
        Some(KnownFn::AtomReset)
    } else if same(kw, "atom-swap") {
        Some(KnownFn::AtomSwap)
    } else if same(kw, "apply") {
        Some(KnownFn::Apply)
    } else if same(kw, "try-catch-finally") {
        Some(KnownFn::TryCatchFinally)
    } else {
        None
    }
}

fn read_known(m: &Vec<(Value, Value)>, key: &str) -> (r: Result<KnownFn, ConvertError>)
    ensures
        agrees(r, known_field(m@, key@)),
{
    match read_keyword(m, key) {
        Ok(kw) => match keyword_to_known_fn(kw.as_str()) {
            Some(kf) => Ok(kf),
            None => Err(ConvertError::UnknownVariant("unknown KnownFn: ".to_owned().concat(kw.as_str()))),
        },
        Err(e) => Err(e),
    }
}

fn read_text_opt(m: &Vec<(Value, Value)>, key: &str) -> (r: Result<Option<String>, ConvertError>)
    ensures
        match r {
            Ok(t) => text_opt_field(m@, key@) == Ok::<Option<Seq<char>>, ConvView>(ir::text_opt(t)),
            Err(e) => text_opt_field(m@, key@) == Err::<Option<Seq<char>>, ConvView>(e@),
        },
{
    match get_field_opt(m, key) {
        None => Ok(None),
        Some(v) => match as_str(v) {
            Ok(t) => Ok(Some(t)),
            Err(e) => Err(e),
        },
    }
}

fn read_texts_opt(m: &Vec<(Value, Value)>, key: &str) -> (r: Result<Vec<String>, ConvertError>)
    ensures
        match r {
            Ok(ts) => texts_opt_field(m@, key@) == Ok::<Seq<Seq<char>>, ConvView>(ir::texts(ts@)),
            Err(e) => texts_opt_field(m@, key@) == Err::<Seq<Seq<char>>, ConvView>(e@),
        },
{
    let none: Vec<Value> = Vec::new();
    let mut out: Vec<String> = Vec::new();
    assert(ir::texts(out@) =~= Seq::<Seq<char>>::empty());
    match get_field_opt(m, key) {
        None => {},
        Some(v) => {
            let items = match as_vec(v, &none) {
                Ok(items) => items,
                Err(e) => return Err(e),
            };
            let mut i: usize = 0;
            while i < items.len()
                invariant
                    i <= items@.len(),
                    texts_opt_field(m@, key@) == texts_of(items@, i as int, ir::texts(out@)),
                decreases items@.len() - i,
            {
                match as_str(&items[i]) {
                    Ok(t) => {
                        let ghost before = out@;
                        out.push(t);
                        assert(ir::texts(out@) =~= ir::texts(before).push(t@));
                    },
                    Err(e) => return Err(e),
                }
                i += 1;
            }
        },
    }
    Ok(out)
}

fn read_counts_opt(m: &Vec<(Value, Value)>, key: &str) -> (r: Result<Vec<usize>, ConvertError>)
    ensures
        agrees_view(r, counts_opt_field(m@, key@)),
{
    let none: Vec<Value> = Vec::new();
    let mut out: Vec<usize> = Vec::new();
    match get_field_opt(m, key) {
        None => {},
        Some(v) => {
            let items = match as_vec(v, &none) {
                Ok(items) => items,
                Err(e) => return Err(e),
            };
            let mut i: usize = 0;
            while i < items.len()
                invariant
                    i <= items@.len(),
                    counts_opt_field(m@, key@) == counts_of(items@, i as int, out@),
                decreases items@.len() - i,
            {
                match as_long(&items[i]) {
                    Ok(n) => {
                        out.push(#[verifier::truncate] (n as usize));
                    },
                    Err(e) => return Err(e),
                }
                i += 1;
            }
        },
    }
    Ok(out)
}

fn all_false(n: usize) -> (r: Vec<bool>)
    ensures
        r@ == Seq::new(n as nat, |i: int| false),
{
    let mut out: Vec<bool> = Vec::new();
    let mut i: usize = 0;
    while i < n
        invariant
            i <= n,
            out@.len() == i,
            forall|k: int| 0 <= k < i ==> out@[k] == false,
        decreases n - i,
    {
        out.push(false);
        i += 1;
    }
    assert(out@ =~= Seq::new(n as nat, |i: int| false));
    out
}

fn read_template(m: &Vec<(Value, Value)>) -> (r: Result<ClosureTemplate, ConvertError>)
    ensures
        agrees_view(r, template_of(m@)),
{
    let name = match read_text_opt(m, "closure-name") {
        Ok(x) => x,
        Err(e) => return Err(e),
    };
    let arity_fn_names = match read_texts_opt(m, "arity-fn-names") {
        Ok(x) => x,
        Err(e) => return Err(e),
    };
    let param_counts = match read_counts_opt(m, "param-counts") {
        Ok(x) => x,
        Err(e) => return Err(e),
    };
    let capture_names = match read_texts_opt(m, "capture-names") {
        Ok(x) => x,
        Err(e) => return Err(e),
    };
    let is_variadic = all_false(arity_fn_names.len());
    let t = ClosureTemplate { name, arity_fn_names, param_counts, is_variadic, capture_names, body_forms: Vec::new() };
    assert(t@.body_forms =~= Seq::empty());
    Ok(t)
}

/// Reads a literal.
pub fn value_to_const(v: &Value) -> (r: Result<Const, ConvertError>)
    ensures
        agrees_view(r, const_of(*v)),
{
    let m = match as_map(v) {
        Ok(m) => m,
        Err(e) => return Err(e),
    };
    let kw = match read_keyword(m, "type") {
        Ok(kw) => kw,
        Err(e) => return Err(e),
    };
    assert(const_of(*v) == const_by_type(kw@, m@));
    let ty = kw.as_str();
    if same(ty, "nil") {
        Ok(Const::Nil)
    } else if same(ty, "bool") {
        match get_field(m, "val") {
            Ok(Value::Bool(b)) => Ok(Const::Bool(*b)),
            Ok(_) => Err(ConvertError::TypeError(WrongType { words: "expected bool for :bool const".to_owned(), got: None })),
            Err(e) => Err(e),
        }
    } else if same(ty, "long") {
        match get_field(m, "val") {
            Ok(v) => match as_long(v) {
                Ok(n) => Ok(Const::Long(n)),
                Err(e) => Err(e),
            },
            Err(e) => Err(e),
        }
    } else if same(ty, "double") {
        match get_field(m, "val") {
            Ok(Value::Double(d)) => Ok(Const::Double(*d)),
            Ok(Value::Long(n)) => Ok(Const::Double(double::double_of_long(*n))),
            Ok(_) => Err(ConvertError::TypeError(WrongType { words: "expected double for :double const".to_owned(), got: None })),
            Err(e) => Err(e),
        }
    } else if same(ty, "string") {
        match read_text(m, "val") {
            Ok(t) => Ok(Const::Str(t)),
            Err(e) => Err(e),
        }
    } else if same(ty, "keyword") {
        match read_text(m, "val") {
            Ok(t) => Ok(Const::Keyword(t)),
            Err(e) => Err(e),
        }
    } else if same(ty, "symbol") {
        match read_text(m, "val") {
            Ok(t) => Ok(Const::Symbol(t)),
            Err(e) => Err(e),
        }
    } else if same(ty, "char") {
        match get_field(m, "val") {
            Ok(Value::Char(c)) => Ok(Const::Char(*c)),
            Ok(_) => Err(ConvertError::TypeError(WrongType { words: "expected char for :char const".to_owned(), got: None })),
            Err(e) => Err(e),
        }
    } else {
        Err(ConvertError::UnknownVariant("unknown const type: ".to_owned().concat(ty)))
    }
}

fn read_const(m: &Vec<(Value, Value)>, key: &str) -> (r: Result<Const, ConvertError>)
    ensures
        agrees_view(r, const_field(m@, key@)),
{
    match get_field(m, key) {
        Ok(v) => value_to_const(v),
        Err(e) => Err(e),
    }
}

fn convert_const(m: &Vec<(Value, Value)>) -> (r: Result<Inst, ConvertError>)
    ensures
        agrees_view(r, const_inst(m@)),
{
    let dst = match read_var(m, "dst") {
        Ok(x) => x,
        Err(e) => return Err(e),
    };
    let c = match read_const(m, "value") {
        Ok(x) => x,
        Err(e) => return Err(e),
    };
    Ok(Inst::Const(dst, c))
}

fn convert_load_local(m: &Vec<(Value, Value)>) -> (r: Result<Inst, ConvertError>)
    ensures
        agrees_view(r, load_local_inst(m@)),
{
    let dst = match read_var(m, "dst") {
        Ok(x) => x,
        Err(e) => return Err(e),
    };
    let name = match read_text(m, "name") {
        Ok(x) => x,
        Err(e) => return Err(e),
    };
    Ok(Inst::LoadLocal(dst, name))
}

fn convert_load_global(m: &Vec<(Value, Value)>) -> (r: Result<Inst, ConvertError>)
    ensures
        agrees_view(r, load_global_inst(m@)),
{
    let dst = match read_var(m, "dst") {
        Ok(x) => x,
        Err(e) => return Err(e),
    };
    let ns = match read_text(m, "ns") {
        Ok(x) => x,
        Err(e) => return Err(e),
    };
    let name = match read_text(m, "name") {
        Ok(x) => x,
        Err(e) => return Err(e),
    };
    Ok(Inst::LoadGlobal(dst, ns, name))
}

fn convert_alloc_vector(m: &Vec<(Value, Value)>) -> (r: Result<Inst, ConvertError>)
    ensures
        agrees_view(r, alloc_vector_inst(m@)),
{
    let dst = match read_var(m, "dst") {
        Ok(x) => x,
        Err(e) => return Err(e),
    };
    let elems = match read_vars(m, "elems") {
        Ok(x) => x,
        Err(e) => return Err(e),
    };
    Ok(Inst::AllocVector(dst, elems))
}

fn convert_alloc_map(m: &Vec<(Value, Value)>) -> (r: Result<Inst, ConvertError>)
    ensures
        agrees_view(r, alloc_map_inst(m@)),
{
    let dst = match read_var(m, "dst") {
        Ok(x) => x,
        Err(e) => return Err(e),
    };
    let pairs = match read_pairs(m, "pairs") {
        Ok(x) => x,
        Err(e) => return Err(e),
    };
    Ok(Inst::AllocMap(dst, pairs))
}

fn convert_alloc_set(m: &Vec<(Value, Value)>) -> (r: Result<Inst, ConvertError>)
    ensures
        agrees_view(r, alloc_set_inst(m@)),
{
    let dst = match read_var(m, "dst") {
        Ok(x) => x,
        Err(e) => return Err(e),
    };
    let elems = match read_vars(m, "elems") {
        Ok(x) => x,
        Err(e) => return Err(e),
    };
    Ok(Inst::AllocSet(dst, elems))
}

fn convert_alloc_list(m: &Vec<(Value, Value)>) -> (r: Result<Inst, ConvertError>)
    ensures
        agrees_view(r, alloc_list_inst(m@)),
{
    let dst = match read_var(m, "dst") {
        Ok(x) => x,
        Err(e) => return Err(e),
    };
    let elems = match read_vars(m, "elems") {
        Ok(x) => x,
        Err(e) => return Err(e),
    };
    Ok(Inst::AllocList(dst, elems))
}

fn convert_alloc_cons(m: &Vec<(Value, Value)>) -> (r: Result<Inst, ConvertError>)
    ensures
        agrees_view(r, alloc_cons_inst(m@)),
{
    let dst = match read_var(m, "dst") {
        Ok(x) => x,
        Err(e) => return Err(e),
    };
    let head = match read_var(m, "head") {
        Ok(x) => x,
        Err(e) => return Err(e),
    };
    let tail = match read_var(m, "tail") {
        Ok(x) => x,
        Err(e) => return Err(e),
    };
    Ok(Inst::AllocCons(dst, head, tail))
}

fn convert_alloc_closure(m: &Vec<(Value, Value)>) -> (r: Result<Inst, ConvertError>)
    ensures
        agrees_view(r, alloc_closure_inst(m@)),
{
    let dst = match read_var(m, "dst") {
        Ok(x) => x,
        Err(e) => return Err(e),
    };
    let captures = match read_vars(m, "captures") {
        Ok(x) => x,
        Err(e) => return Err(e),
    };
    let t = match read_template(m) {
        Ok(x) => x,
        Err(e) => return Err(e),
    };
    Ok(Inst::AllocClosure(dst, t, captures))
}

fn convert_call_known(m: &Vec<(Value, Value)>) -> (r: Result<Inst, ConvertError>)
    ensures
        agrees_view(r, call_known_inst(m@)),
{
    let dst = match read_var(m, "dst") {
        Ok(x) => x,
        Err(e) => return Err(e),
    };
    let known = match read_known(m, "func") {
        Ok(x) => x,
        Err(e) => return Err(e),
    };
    let args = match read_vars(m, "args") {
        Ok(x) => x,
        Err(e) => return Err(e),
    };
    Ok(Inst::CallKnown(dst, known, args))
}

fn convert_call(m: &Vec<(Value, Value)>) -> (r: Result<Inst, ConvertError>)
    ensures
        agrees_view(r, call_inst(m@)),
{
    let dst = match read_var(m, "dst") {
        Ok(x) => x,
        Err(e) => return Err(e),
    };
    let callee = match read_var(m, "callee") {
        Ok(x) => x,
        Err(e) => return Err(e),
    };
    let args = match read_vars(m, "args") {
        Ok(x) => x,
        Err(e) => return Err(e),
    };
    Ok(Inst::Call(dst, callee, args))
}

fn convert_deref(m: &Vec<(Value, Value)>) -> (r: Result<Inst, ConvertError>)
    ensures
        agrees_view(r, deref_inst(m@)),
{
    let dst = match read_var(m, "dst") {
        Ok(x) => x,
        Err(e) => return Err(e),
    };
    let src = match read_var(m, "src") {
        Ok(x) => x,
        Err(e) => return Err(e),
    };
    Ok(Inst::Deref(dst, src))
}

fn convert_def_var(m: &Vec<(Value, Value)>) -> (r: Result<Inst, ConvertError>)
    ensures
        agrees_view(r, def_var_inst(m@)),
{
    let dst = match read_var(m, "dst") {
        Ok(x) => x,
        Err(e) => return Err(e),
    };
    let ns = match read_text(m, "ns") {
        Ok(x) => x,
        Err(e) => return Err(e),
    };
    let name = match read_text(m, "name") {
        Ok(x) => x,
        Err(e) => return Err(e),
    };
    let value = match read_var(m, "value") {
        Ok(x) => x,
        Err(e) => return Err(e),
    };
    Ok(Inst::DefVar(dst, ns, name, value))
}

fn convert_set_bang(m: &Vec<(Value, Value)>) -> (r: Result<Inst, ConvertError>)
    ensures
        agrees_view(r, set_bang_inst(m@)),
{
    let var = match read_var(m, "var") {
        Ok(x) => x,
        Err(e) => return Err(e),
    };
    let value = match read_var(m, "value") {
        Ok(x) => x,
        Err(e) => return Err(e),
    };
    Ok(Inst::SetBang(var, value))
}

fn convert_throw(m: &Vec<(Value, Value)>) -> (r: Result<Inst, ConvertError>)
    ensures
        agrees_view(r, throw_inst(m@)),
{
    let value = match read_var(m, "value") {
        Ok(x) => x,
        Err(e) => return Err(e),
    };
    Ok(Inst::Throw(value))
}

fn convert_phi(m: &Vec<(Value, Value)>) -> (r: Result<Inst, ConvertError>)
    ensures
        agrees_view(r, phi_inst(m@)),
{
    let dst = match read_var(m, "dst") {
        Ok(x) => x,
        Err(e) => return Err(e),
    };
    let entries = match read_entries(m, "entries") {
        Ok(x) => x,
        Err(e) => return Err(e),
    };
    Ok(Inst::Phi(dst, entries))
}

fn convert_recur(m: &Vec<(Value, Value)>) -> (r: Result<Inst, ConvertError>)
    ensures
        agrees_view(r, recur_inst(m@)),
{
    let args = match read_vars(m, "args") {
        Ok(x) => x,
        Err(e) => return Err(e),
    };
    Ok(Inst::Recur(args))
}

fn convert_source_loc(m: &Vec<(Value, Value)>) -> (r: Result<Inst, ConvertError>)
    ensures
        agrees_view(r, source_loc_inst(m@)),
{
    let file = match read_text(m, "file") {
        Ok(x) => x,
        Err(e) => return Err(e),
    };
    let line = match read_u32(m, "line") {
        Ok(x) => x,
        Err(e) => return Err(e),
    };
    let col = match read_u32(m, "col") {
        Ok(x) => x,
        Err(e) => return Err(e),
    };
    Ok(Inst::SourceLoc(Span { file, start: 0, end: 0, line, col }))
}

/// Reads an instruction.
pub fn value_to_inst(v: &Value) -> (r: Result<Inst, ConvertError>)
    ensures
        agrees_view(r, to_inst(*v)),
{
    let m = match as_map(v) {
        Ok(m) => m,
        Err(e) => return Err(e),
    };
    let kw = match read_keyword(m, "op") {
        Ok(kw) => kw,
        Err(e) => return Err(e),
    };
    assert(to_inst(*v) == inst_of(kw@, m@));
    let op = kw.as_str();
    if same(op, "const") {
        convert_const(m)
    } else if same(op, "load-local") {
        convert_load_local(m)
    } else if same(op, "load-global") {
        convert_load_global(m)
    } else if same(op, "alloc-vector") {
        convert_alloc_vector(m)
    } else if same(op, "alloc-map") {
        convert_alloc_map(m)
    } else if same(op, "alloc-set") {
        convert_alloc_set(m)
    } else if same(op, "alloc-list") {
        convert_alloc_list(m)
    } else if same(op, "alloc-cons") {
        convert_alloc_cons(m)
    } else if same(op, "alloc-closure") {
        convert_alloc_closure(m)
    } else if same(op, "call-known") {
        convert_call_known(m)
    } else if same(op, "call") {
        convert_call(m)
    } else if same(op, "deref") {
        convert_deref(m)
    } else if same(op, "def-var") {
        convert_def_var(m)
    } else if same(op, "set!") {
        convert_set_bang(m)
    } else if same(op, "throw") {
        convert_throw(m)
    } else if same(op, "phi") {
        convert_phi(m)
    } else if same(op, "recur") {
        convert_recur(m)
    } else if same(op, "source-loc") {
        convert_source_loc(m)
    } else {
        Err(ConvertError::UnknownVariant("unknown inst op: ".to_owned().concat(op)))
    }
}

/// Reads a terminator.
pub fn value_to_terminator(v: &Value) -> (r: Result<Terminator, ConvertError>)
    ensures
        agrees_view(r, to_terminator(*v)),
{
    let m = match as_map(v) {
        Ok(m) => m,
        Err(e) => return Err(e),
    };
    let kw = match read_keyword(m, "op") {
        Ok(kw) => kw,
        Err(e) => return Err(e),
    };
    assert(to_terminator(*v) == term_of(kw@, m@));
    let op = kw.as_str();
    if same(op, "jump") {
        let target = match read_block(m, "target") {
            Ok(x) => x,
            Err(e) => return Err(e),
        };
        Ok(Terminator::Jump(target))
    } else if same(op, "branch") {
        let cond = match read_var(m, "cond") {
            Ok(x) => x,
            Err(e) => return Err(e),
        };
        let then_block = match read_block(m, "then-block") {
            Ok(x) => x,
            Err(e) => return Err(e),
        };
        let else_block = match read_block(m, "else-block") {
            Ok(x) => x,
            Err(e) => return Err(e),
        };
        Ok(Terminator::Branch { cond, then_block, else_block })
    } else if same(op, "return") {
        let var = match read_var(m, "var") {
            Ok(x) => x,
            Err(e) => return Err(e),
        };
        Ok(Terminator::Return(var))
    } else if same(op, "recur-jump") {
        let target = match read_block(m, "target") {
            Ok(x) => x,
            Err(e) => return Err(e),
        };
        let args = match read_vars(m, "args") {
            Ok(x) => x,
            Err(e) => return Err(e),
        };
        Ok(Terminator::RecurJump { target, args })
    } else if same(op, "unreachable") {
        Ok(Terminator::Unreachable)
    } else {
        Err(ConvertError::UnknownVariant("unknown terminator op: ".to_owned().concat(op)))
    }
}

fn read_insts(m: &Vec<(Value, Value)>, key: &str) -> (r: Result<Vec<Inst>, ConvertError>)
    ensures
        match r {
            Ok(xs) => insts_field(m@, key@) == Ok::<Seq<InstView>, ConvView>(ir::insts_view(xs@)),
            Err(e) => insts_field(m@, key@) == Err::<Seq<InstView>, ConvView>(e@),
        },
{
    let none: Vec<Value> = Vec::new();
    let items = match read_items(m, key, &none) {
        Ok(items) => items,
        Err(e) => return Err(e),
    };
    let mut out: Vec<Inst> = Vec::new();
    assert(ir::insts_view(out@) =~= Seq::<InstView>::empty());
    let mut i: usize = 0;
    while i < items.len()
        invariant
            i <= items@.len(),
            insts_field(m@, key@) == to_insts(items@, i as int, ir::insts_view(out@)),
        decreases items@.len() - i,
    {
        match value_to_inst(&items[i]) {
            Ok(x) => {
                let ghost before = out@;
                out.push(x);
                assert(ir::insts_view(out@) =~= ir::insts_view(before).push(x@));
            },
            Err(e) => return Err(e),
        }
        i += 1;
    }
    Ok(out)
}

/// Reads a block.
pub fn value_to_block(v: &Value) -> (r: Result<Block, ConvertError>)
    ensures
        agrees_view(r, to_block(*v)),
{
    let m = match as_map(v) {
        Ok(m) => m,
        Err(e) => return Err(e),
    };
    let id = match read_block(m, "id") {
        Ok(x) => x,
        Err(e) => return Err(e),
    };
    let phis = match read_insts(m, "phis") {
        Ok(x) => x,
        Err(e) => return Err(e),
    };
    let insts = match read_insts(m, "insts") {
        Ok(x) => x,
        Err(e) => return Err(e),
    };
    match get_field(m, "terminator") {
        Ok(t) => match value_to_terminator(t) {
            Ok(terminator) => Ok(Block { id, phis, insts, terminator }),
            Err(e) => Err(e),
        },
        Err(e) => Err(e),
    }
}

fn read_blocks(items: &Vec<Value>) -> (r: Result<Vec<Block>, ConvertError>)
    ensures
        match r {
            Ok(xs) => to_blocks(items@, 0, Seq::empty()) == Ok::<Seq<BlockView>, ConvView>(ir::blocks_view(xs@)),
            Err(e) => to_blocks(items@, 0, Seq::empty()) == Err::<Seq<BlockView>, ConvView>(e@),
        },
{
    let mut out: Vec<Block> = Vec::new();
    assert(ir::blocks_view(out@) =~= Seq::<BlockView>::empty());
    let mut i: usize = 0;
    while i < items.len()
        invariant
            i <= items@.len(),
            to_blocks(items@, 0, Seq::empty()) == to_blocks(items@, i as int, ir::blocks_view(out@)),
        decreases items@.len() - i,
    {
        match value_to_block(&items[i]) {
            Ok(x) => {
                let ghost before = out@;
                out.push(x);
                assert(ir::blocks_view(out@) =~= ir::blocks_view(before).push(x@));
            },
            Err(e) => return Err(e),
        }
        i += 1;
    }
    Ok(out)
}

fn read_params(items: &Vec<Value>) -> (r: Result<Vec<(String, VarId)>, ConvertError>)
    ensures
        match r {
            Ok(xs) => params_of(items@, 0, Seq::empty()) == Ok::<Seq<(Seq<char>, VarId)>, ConvView>(ir::params_view(xs@)),
            Err(e) => params_of(items@, 0, Seq::empty()) == Err::<Seq<(Seq<char>, VarId)>, ConvView>(e@),
        },
{
    let mut out: Vec<(String, VarId)> = Vec::new();
    assert(ir::params_view(out@) =~= Seq::<(Seq<char>, VarId)>::empty());
    let mut i: usize = 0;
    while i < items.len()
        invariant
            i <= items@.len(),
            params_of(items@, 0, Seq::empty()) == params_of(items@, i as int, ir::params_view(out@)),
        decreases items@.len() - i,
    {
        match as_param(&items[i]) {
            Ok(p) => {
                let ghost before = out@;
                let ghost pv = (p.0@, p.1);
                out.push(p);
                assert(ir::params_view(out@) =~= ir::params_view(before).push(pv));
            },
            Err(e) => return Err(e),
        }
        i += 1;
    }
    Ok(out)
}

/// What a function is, apart from its subfunctions.
fn read_function_head(m: &Vec<(Value, Value)>) -> (r: Result<IrFunction, ConvertError>)
    ensures
        match r {
            Ok(f) => function_head(m@) == Ok::<FunctionView, ConvView>(ir::function_view(f)) && f.subfunctions@.len() == 0,
            Err(e) => function_head(m@) == Err::<FunctionView, ConvView>(e@),
        },
{
    let none: Vec<Value> = Vec::new();
    let name = match read_text_opt(m, "name") {
        Ok(x) => x,
        Err(e) => return Err(e),
    };
    let next_var: u32 = match read_u32(m, "next-var") {
        Ok(x) => x,
        Err(e) => return Err(e),
    };
    let next_block: u32 = match read_u32(m, "next-block") {
        Ok(x) => x,
        Err(e) => return Err(e),
    };
    let params = match read_items(m, "params", &none) {
        Ok(items) => match read_params(items) {
            Ok(x) => x,
            Err(e) => return Err(e),
        },
        Err(e) => return Err(e),
    };
    let blocks = match read_items(m, "blocks", &none) {
        Ok(items) => match read_blocks(items) {
            Ok(x) => x,
            Err(e) => return Err(e),
        },
        Err(e) => return Err(e),
    };
    let f = IrFunction {
        name,
        params,
        blocks,
        next_var,
        next_block,
        span: None,
        subfunctions: Vec::new(),
        is_async: false,
        local_seed_reprs: Vec::new(),
        pins: Vec::new(),
    };
    proof {
        assert(ir::function_view(f).pins =~= Seq::empty());
        assert(ir::functions_view(f.subfunctions@) =~= Seq::<FunctionView>::empty());
        assert(f.local_seed_reprs@ =~= Seq::empty());
    }
    Ok(f)
}

/// Reads a function, with the functions inside it.
pub fn value_to_ir_function(v: &Value) -> (r: Result<IrFunction, ConvertError>)
    ensures
        match r {
            Ok(f) => to_function(*v) == Ok::<FunctionView, ConvView>(ir::function_view(f)),
            Err(e) => to_function(*v) == Err::<FunctionView, ConvView>(e@),
        },
    decreases v,
{
    match v {
        Value::Dict(m) => {
            let head = match read_function_head(m) {
                Ok(f) => f,
                Err(e) => return Err(e),
            };
            let mut f = head;
            match find_entry(m, "subfunctions") {
                Some(i) => match &m[i].1 {
                    Value::Nil => {
                        assert(ir::functions_view(f.subfunctions@) =~= Seq::<FunctionView>::empty());
                    },
                    Value::Vector(vs) => match read_functions(vs, vs.len()) {
                        Ok(subs) => {
                            assert(vs@.take(vs@.len() as int) =~= vs@);
                            f.subfunctions = subs;
                        },
                        Err(e) => {
                            assert(vs@.take(vs@.len() as int) =~= vs@);
                            return Err(e);
                        },
                    },
                    Value::List(vs) => match read_functions(vs, vs.len()) {
                        Ok(subs) => {
                            assert(vs@.take(vs@.len() as int) =~= vs@);
                            f.subfunctions = subs;
                        },
                        Err(e) => {
                            assert(vs@.take(vs@.len() as int) =~= vs@);
                            return Err(e);
                        },
                    },
                    other => return Err(wrong_type("vector/list", other)),
                },
                None => {
                    assert(ir::functions_view(f.subfunctions@) =~= Seq::<FunctionView>::empty());
                },
            }
            Ok(f)
        },
        other => Err(wrong_type("map", other)),
    }
}

/// Reads the first `n` of a list of functions.
fn read_functions(vs: &Vec<Value>, n: usize) -> (r: Result<Vec<IrFunction>, ConvertError>)
    requires
        n <= vs@.len(),
    ensures
        match r {
            Ok(fs) => to_functions(vs@.take(n as int)) == Ok::<Seq<FunctionView>, ConvView>(ir::functions_view(fs@)),
            Err(e) => to_functions(vs@.take(n as int)) == Err::<Seq<FunctionView>, ConvView>(e@),
        },
    decreases vs@, n,
{
    if n == 0 {
        let none: Vec<IrFunction> = Vec::new();
        assert(ir::functions_view(none@) =~= Seq::<FunctionView>::empty());
        return Ok(none);
    }
    proof {
        assert(vs@.take(n as int).drop_last() =~= vs@.take(n - 1));
    }
    match read_functions(vs, n - 1) {
        Err(e) => Err(e),
        Ok(done) => {
            let mut out = done;
            match value_to_ir_function(&vs[n - 1]) {
                Err(e) => Err(e),
                Ok(f) => {
                    let ghost before = out@;
                    out.push(f);
                    assert(out@.drop_last() =~= before);
                    Ok(out)
                },
            }
        },
    }
}

} // verus!
