//! Calls: which code runs, with which arguments, and what comes back.
use crate::rt_abi::caches::Hook;
use crate::rt_abi::collections;
use crate::rt_abi::collections::{find_value, look_up};
use crate::rt_abi::equality;
use crate::text;
use crate::text::render_decimal;
use crate::value;
use crate::value::{copy_value, Value, ValueView};
use vstd::prelude::*;
use vstd::string::*;

verus! {

/// One arity of a compiled function: its code, the number of its parameters, and whether more
/// arguments come as a list behind them.
#[derive(Clone, Copy, Debug, PartialEq, Eq, Structural)]
pub struct ArityEntry {
    pub fn_addr: u64,
    pub params: usize,
    pub variadic: bool,
}

/// How many arguments a function takes.
#[derive(Clone, Copy, Debug, PartialEq, Eq, Structural)]
pub enum Arity {
    Fixed(usize),
    /// At least as many.
    Variadic(usize),
}

/// A compiled function with the values that it captured.
#[derive(Debug)]
pub struct CompiledFn {
    pub name: String,
    /// The name in complaints about the number of arguments.
    pub label: String,
    pub arities: Vec<ArityEntry>,
    pub captures: Vec<Value>,
}

/// A compiled function with one arity, and the hook that is told once of it, where one is set.
pub fn rt_make_fn(name: &str, fn_addr: u64, param_count: usize, captures: Vec<Value>, hook: &Hook) -> (r: (CompiledFn, Option<u64>))
    ensures
        r.0.name@ == name@,
        r.0.label@ == "compiled-fn"@,
        r.0.arities@ == seq![ArityEntry { fn_addr, params: param_count, variadic: false }],
        r.0.captures == captures,
        r.1 == hook.id,
{
    let mut arities: Vec<ArityEntry> = Vec::new();
    arities.push(ArityEntry { fn_addr, params: param_count, variadic: false });
    (CompiledFn { name: name.to_owned(), label: "compiled-fn".to_owned(), arities, captures }, hook.id)
}

/// A compiled function with one arity that takes any number of arguments behind its parameters, and
/// the hook that is told once of it.
pub fn rt_make_fn_variadic(name: &str, fn_addr: u64, fixed_param_count: usize, captures: Vec<Value>, hook: &Hook) -> (r: (CompiledFn, Option<u64>))
    ensures
        r.0.name@ == name@,
        r.0.label@ == "compiled-fn"@,
        r.0.arities@ == seq![ArityEntry { fn_addr, params: fixed_param_count, variadic: true }],
        r.0.captures == captures,
        r.1 == hook.id,
{
    let mut arities: Vec<ArityEntry> = Vec::new();
    arities.push(ArityEntry { fn_addr, params: fixed_param_count, variadic: true });
    (CompiledFn { name: name.to_owned(), label: "compiled-fn".to_owned(), arities, captures }, hook.id)
}

/// A compiled function with several arities, and the hook that is told once of it.
pub fn rt_make_fn_multi(name: &str, arities: Vec<ArityEntry>, captures: Vec<Value>, hook: &Hook) -> (r: (CompiledFn, Option<u64>))
    ensures
        r.0.name@ == name@,
        r.0.label@ == name@,
        r.0.arities == arities,
        r.0.captures == captures,
        r.1 == hook.id,
{
    (CompiledFn { name: name.to_owned(), label: name.to_owned(), arities, captures }, hook.id)
}

/// One of the first `n` arities takes any number of arguments.
pub open spec fn is_any_variadic(table: Seq<ArityEntry>, n: int) -> bool {
    exists|i: int| 0 <= i < n && (#[trigger] table[i]).variadic
}

/// The least number of parameters, and zero where there are no arities.
pub open spec fn is_least(table: Seq<ArityEntry>, n: int, least: usize) -> bool {
    if n == 0 {
        least == 0
    } else {
        (exists|i: int| 0 <= i < n && (#[trigger] table[i]).params == least) && forall|i: int| 0 <= i < n ==> least <= (#[trigger] table[i]).params
    }
}

/// How many arguments the function takes: exactly as many where all arities agree and none takes
/// more; else at least the fewest.
pub open spec fn is_arity(table: Seq<ArityEntry>, a: Arity) -> bool {
    match a {
        Arity::Fixed(n) => {
            &&& !is_any_variadic(table, table.len() as int)
            &&& is_least(table, table.len() as int, n)
            &&& forall|i: int| 0 <= i < table.len() ==> (#[trigger] table[i]).params == n
        },
        Arity::Variadic(least) => {
            &&& is_least(table, table.len() as int, least)
            &&& is_any_variadic(table, table.len() as int) || exists|i: int| 0 <= i < table.len() && (#[trigger] table[i]).params != least
        },
    }
}

/// How many arguments a function takes.
pub fn arity_of(table: &Vec<ArityEntry>) -> (r: Arity)
    ensures
        is_arity(table@, r),
{
    let n: usize = table.len();
    if n == 0 {
        return Arity::Fixed(0);
    }
    let mut least: usize = table[0].params;
    let mut most: usize = table[0].params;
    let mut any = table[0].variadic;
    let mut i: usize = 1;
    while i < n
        invariant
            1 <= i <= n,
            n == table@.len(),
            any == is_any_variadic(table@, i as int),
            is_least(table@, i as int, least),
            forall|k: int| 0 <= k < i ==> (#[trigger] table@[k]).params <= most,
            exists|k: int| 0 <= k < i && (#[trigger] table@[k]).params == most,
        decreases n - i,
    {
        let p: usize = table[i].params;
        assert(table@[i as int].params == p);
        if p < least {
            least = p;
        }
        if p > most {
            most = p;
        }
        if table[i].variadic {
            any = true;
        }
        i += 1;
    }
    if any || least != most { Arity::Variadic(least) } else { Arity::Fixed(least) }
}

/// The position, from `i` on, of the arity for exactly as many arguments.
pub open spec fn exact_at(table: Seq<ArityEntry>, argc: nat, i: int) -> int
    decreases table.len() - i,
{
    if i < 0 || i >= table.len() {
        table.len() as int
    } else if !table[i].variadic && table[i].params == argc {
        i
    } else {
        exact_at(table, argc, i + 1)
    }
}

/// The position, from `i` on, of an arity that takes any number of arguments, where there are
/// enough of them.
pub open spec fn open_at(table: Seq<ArityEntry>, argc: nat, i: int) -> int
    decreases table.len() - i,
{
    if i < 0 || i >= table.len() {
        table.len() as int
    } else if table[i].variadic && argc >= table[i].params {
        i
    } else {
        open_at(table, argc, i + 1)
    }
}

/// The arity that is called: one for exactly as many arguments, else one that takes any number.
pub open spec fn selected(table: Seq<ArityEntry>, argc: nat) -> Option<ArityEntry> {
    let e = exact_at(table, argc, 0);
    let o = open_at(table, argc, 0);
    if e < table.len() {
        Some(table[e])
    } else if o < table.len() {
        Some(table[o])
    } else {
        None
    }
}

/// The arity that is called.
pub fn select_arity(table: &Vec<ArityEntry>, argc: usize) -> (r: Option<ArityEntry>)
    ensures
        r == selected(table@, argc as nat),
{
    let mut i: usize = 0;
    while i < table.len()
        invariant
            i <= table@.len(),
            exact_at(table@, argc as nat, 0) == exact_at(table@, argc as nat, i as int),
        decreases table@.len() - i,
    {
        if !table[i].variadic && table[i].params == argc {
            return Some(table[i]);
        }
        i += 1;
    }
    let mut i: usize = 0;
    while i < table.len()
        invariant
            i <= table@.len(),
            exact_at(table@, argc as nat, 0) == table@.len(),
            open_at(table@, argc as nat, 0) == open_at(table@, argc as nat, i as int),
        decreases table@.len() - i,
    {
        if table[i].variadic && argc >= table[i].params {
            return Some(table[i]);
        }
        i += 1;
    }
    None
}

/// Arguments behind the parameters, as a list; nil where there are none.
pub open spec fn rest_list(args: Seq<ValueView>) -> ValueView {
    if args.len() == 0 { ValueView::Nil } else { ValueView::List(args) }
}

/// What the code is called with: the captured values, and behind them the arguments, those beyond
/// the parameters as one list.
pub open spec fn packed(captures: Seq<ValueView>, args: Seq<ValueView>, a: ArityEntry) -> Seq<ValueView> {
    if a.variadic {
        (captures + args.take(a.params as int)).push(rest_list(args.skip(a.params as int)))
    } else {
        captures + args
    }
}

fn add_range(out: &mut Vec<Value>, vs: &Vec<Value>, from: usize, to: usize)
    requires
        from <= to <= vs@.len(),
    ensures
        value::views(final(out)@) == value::views(old(out)@) + value::views(vs@).subrange(from as int, to as int),
{
    let ghost start = value::views(out@);
    let ghost vv = value::views(vs@);
    proof {
        value::views_at(vs@);
    }
    let mut i: usize = from;
    assert(start + vv.subrange(from as int, from as int) =~= start);
    while i < to
        invariant
            from <= i <= to <= vs@.len(),
            start == value::views(old(out)@),
            vv == value::views(vs@),
            vv.len() == vs@.len(),
            forall|k: int| 0 <= k < vv.len() ==> #[trigger] vv[k] == value::view(vs@[k]),
            value::views(out@) == start + vv.subrange(from as int, i as int),
        decreases to - i,
    {
        let v = copy_value(&vs[i]);
        proof {
            value::views_push(out@, v);
            assert(vv[i as int] == value::view(v));
            assert((start + vv.subrange(from as int, i as int)).push(vv[i as int]) =~= start + vv.subrange(from as int, i + 1));
        }
        out.push(v);
        i += 1;
    }
}

/// What the code of an arity is called with.
pub fn pack_args(captures: &Vec<Value>, args: &Vec<Value>, a: ArityEntry) -> (r: Vec<Value>)
    requires
        a.variadic ==> a.params <= args@.len(),
    ensures
        value::views(r@) == packed(value::views(captures@), value::views(args@), a),
{
    let ghost cv = value::views(captures@);
    let ghost av = value::views(args@);
    proof {
        value::views_at(captures@);
        value::views_at(args@);
    }
    let mut out: Vec<Value> = Vec::new();
    assert(value::views(out@) =~= Seq::empty());
    add_range(&mut out, captures, 0, captures.len());
    assert(value::views(out@) =~= cv);
    if a.variadic {
        add_range(&mut out, args, 0, a.params);
        assert(av.subrange(0, a.params as int) =~= av.take(a.params as int));
        let mut rest: Vec<Value> = Vec::new();
        assert(value::views(rest@) =~= Seq::empty());
        add_range(&mut rest, args, a.params, args.len());
        assert(value::views(rest@) =~= av.skip(a.params as int));
        proof {
            value::views_at(rest@);
        }
        let list = if rest.len() == 0 { Value::Nil } else { Value::List(rest) };
        proof {
            value::views_push(out@, list);
        }
        out.push(list);
    } else {
        add_range(&mut out, args, 0, args.len());
        assert(av.subrange(0, av.len() as int) =~= av);
    }
    out
}

/// An arity in words: the number of its parameters, and a plus where it takes more.
pub open spec fn arity_text(a: ArityEntry) -> Seq<char> {
    if a.variadic { text::decimal(a.params as nat) + "+"@ } else { text::decimal(a.params as nat) }
}

/// The first `n` arities in words.
pub open spec fn arities_text(table: Seq<ArityEntry>, n: int) -> Seq<char>
    decreases n,
{
    if n <= 0 || n > table.len() {
        Seq::empty()
    } else if n == 1 {
        arity_text(table[0])
    } else {
        arities_text(table, n - 1) + " or "@ + arity_text(table[n - 1])
    }
}

fn describe(a: ArityEntry) -> (r: String)
    ensures
        r@ == arity_text(a),
{
    let n = render_decimal(a.params as u64);
    if a.variadic { n.concat("+") } else { n }
}

/// The arities in words.
pub fn expected_arities(table: &Vec<ArityEntry>) -> (r: String)
    ensures
        r@ == arities_text(table@, table@.len() as int),
{
    let mut out = String::new();
    let mut i: usize = 0;
    while i < table.len()
        invariant
            i <= table@.len(),
            out@ == arities_text(table@, i as int),
        decreases table@.len() - i,
    {
        if i == 0 {
            out = describe(table[0]);
        } else {
            out = out.concat(" or ").concat(describe(table[i]).as_str());
        }
        i += 1;
    }
    out
}

/// A call with a number of arguments that no arity takes.
#[derive(Debug)]
pub struct ArityError {
    pub name: String,
    pub expected: String,
    pub got: usize,
}

/// A call of compiled code.
#[derive(Debug)]
pub struct Prepared {
    pub fn_addr: u64,
    pub args: Vec<Value>,
}

/// What a call of a compiled function comes to: which code is called with what, or the complaint
/// about the number of arguments.
pub fn prepare_call(f: &CompiledFn, args: &Vec<Value>) -> (r: Result<Prepared, ArityError>)
    ensures
        match selected(f.arities@, args@.len()) {
            Some(a) => r is Ok && r->Ok_0.fn_addr == a.fn_addr && value::views(r->Ok_0.args@) == packed(value::views(f.captures@), value::views(args@), a),
            None => r is Err && r->Err_0.name@ == f.label@ && r->Err_0.expected@ == arities_text(f.arities@, f.arities@.len() as int) && r->Err_0.got == args@.len(),
        },
{
    match select_arity(&f.arities, args.len()) {
        Some(a) => {
            proof {
                selected_fits(f.arities@, args@.len(), 0);
            }
            Ok(Prepared { fn_addr: a.fn_addr, args: pack_args(&f.captures, args, a) })
        },
        None => Err(ArityError { name: f.label.clone(), expected: expected_arities(&f.arities), got: args.len() }),
    }
}

proof fn selected_fits(table: Seq<ArityEntry>, argc: nat, i: int)
    requires
        0 <= i <= table.len(),
    ensures
        i <= exact_at(table, argc, i) <= table.len(),
        i <= open_at(table, argc, i) <= table.len(),
        exact_at(table, argc, i) < table.len() ==> !table[exact_at(table, argc, i)].variadic && table[exact_at(table, argc, i)].params == argc,
        open_at(table, argc, i) < table.len() ==> table[open_at(table, argc, i)].variadic && argc >= table[open_at(table, argc, i)].params,
        forall|k: int| i <= k < exact_at(table, argc, i) ==> (#[trigger] table[k]).variadic || table[k].params != argc,
        forall|k: int| i <= k < open_at(table, argc, i) ==> !(#[trigger] table[k]).variadic || argc < table[k].params,
    decreases table.len() - i,
{
    if i < table.len() {
        selected_fits(table, argc, i + 1);
    }
}

/// A call finds an arity exactly where one takes the arguments, and one for exactly as many comes
/// before one that takes any number.
pub proof fn a_fitting_arity_is_called(table: Seq<ArityEntry>, argc: nat)
    ensures
        selected(table, argc) is Some <==> exists|k: int| 0 <= k < table.len() && (if (#[trigger] table[k]).variadic { argc >= table[k].params } else { argc == table[k].params }),
        (exists|k: int| 0 <= k < table.len() && !(#[trigger] table[k]).variadic && table[k].params == argc) ==> selected(table, argc) is Some && !selected(table, argc)->0.variadic,
{
    selected_fits(table, argc, 0);
    let e = exact_at(table, argc, 0);
    let o = open_at(table, argc, 0);
    if e < table.len() {
        assert(!table[e].variadic && argc == table[e].params);
    }
    if o < table.len() {
        assert(table[o].variadic && argc >= table[o].params);
    }
}

/// A compiled function takes as many values as it has captured and has parameters for.
pub proof fn packed_as_declared(captures: Seq<ValueView>, args: Seq<ValueView>, table: Seq<ArityEntry>)
    requires
        selected(table, args.len()) is Some,
    ensures
        ({
            let a = selected(table, args.len())->0;
            packed(captures, args, a).len() == captures.len() + a.params + (if a.variadic { 1nat } else { 0nat })
        }),
{
    selected_fits(table, args.len(), 0);
}

/// The largest number of values that compiled code can be called with.
pub const TRAMPOLINE_MAX: usize = 16;

/// The complaint about more values than compiled code can be called with.
pub open spec fn too_many(n: nat) -> Seq<char> {
    "compiled function arity "@ + text::decimal(n) + " exceeds trampoline maximum (16)"@
}

/// Whether compiled code can be called with so many values; else what is thrown.
pub fn rt_call_compiled(nargs: usize) -> (r: Result<(), Value>)
    ensures
        r is Ok <==> nargs <= TRAMPOLINE_MAX,
        r is Err ==> r->Err_0@ == ValueView::Str(too_many(nargs as nat)),
{
    if nargs <= TRAMPOLINE_MAX {
        Ok(())
    } else {
        Err(Value::Str("compiled function arity ".to_owned().concat(render_decimal(nargs as u64).as_str()).concat(" exceeds trampoline maximum (16)")))
    }
}

/// What calling a function came to.
#[derive(Debug)]
pub enum Invoked {
    Value(Value),
    /// It threw.
    Thrown(Value),
    /// It could not be called.
    Failed,
}

/// What compiled code gets back, and what is thrown beside it.
#[derive(Debug)]
pub struct Reply {
    pub value: Value,
    pub thrown: Option<Value>,
}

/// What compiled code gets back of a call: nil where it threw, and where it failed.
pub fn invoke_boxed(result: Invoked) -> (r: Reply)
    ensures
        match result {
            Invoked::Value(v) => r.value == v && r.thrown is None,
            Invoked::Thrown(e) => r.value@ == ValueView::Nil && r.thrown == Some(e),
            Invoked::Failed => r.value@ == ValueView::Nil && r.thrown is None,
        },
{
    match result {
        Invoked::Value(v) => Reply { value: v, thrown: None },
        Invoked::Thrown(e) => Reply { value: Value::Nil, thrown: Some(e) },
        Invoked::Failed => Reply { value: Value::Nil, thrown: None },
    }
}

/// What a call of a value comes to without calling anything: a map gives what it holds under the
/// first argument, and a set the argument, where it has it.  Nothing for other values.
pub open spec fn direct<F: Fn(&Value, &Value) -> bool>(eq: F, callee: ValueView, args: Seq<ValueView>) -> Option<ValueView> {
    if args.len() == 0 {
        None
    } else {
        match callee {
            ValueView::Dict(ps) => Some(collections::entry(eq, ps, args[0])),
            ValueView::HashSet(vs) => Some(if collections::value_at(eq, vs, args[0], 0) < vs.len() { args[0] } else { ValueView::Nil }),
            ValueView::SortedSet(vs) => Some(if collections::value_at(eq, vs, args[0], 0) < vs.len() { args[0] } else { ValueView::Nil }),
            _ => None,
        }
    }
}

/// What a call of a value comes to without calling anything.
pub fn rt_call<F: Fn(&Value, &Value) -> bool>(callee: &Value, args: &Vec<Value>, eq: &F) -> (r: Option<Value>)
    requires
        equality::is_equality(*eq),
    ensures
        match r {
            Some(v) => direct(*eq, callee@, value::views(args@)) == Some(v@),
            None => direct(*eq, callee@, value::views(args@)) is None,
        },
{
    proof {
        value::views_at(args@);
    }
    if args.len() == 0 {
        return None;
    }
    match callee {
        Value::Dict(ps) => Some(look_up(ps, &args[0], eq)),
        Value::HashSet(vs) | Value::SortedSet(vs) => {
            proof {
                value::views_at(vs@);
            }
            if find_value(vs, &args[0], eq) < vs.len() { Some(copy_value(&args[0])) } else { Some(Value::Nil) }
        },
        _ => None,
    }
}

/// The exception that compiled code has thrown and nobody has caught yet.
#[derive(Debug)]
pub struct Pending {
    pub exception: Option<Value>,
}

/// Throws a value: it is pending from now on, and the code goes on with nil.
pub fn rt_throw(pending: &mut Pending, v: Value) -> (r: Value)
    ensures
        final(pending).exception == Some(v),
        r@ == ValueView::Nil,
{
    pending.exception = Some(v);
    Value::Nil
}

/// Takes the pending exception.
pub fn take_pending_exception_value(pending: &mut Pending) -> (r: Option<Value>)
    ensures
        r == old(pending).exception,
        final(pending).exception is None,
{
    pending.exception.take()
}

/// What the body of a try came to.
#[derive(Debug)]
pub enum Body {
    Value(Value),
    Thrown(Value),
    /// It failed, with this message.
    Failed(String),
}

/// What a try does next.
#[derive(Debug)]
pub enum TryStep {
    /// It is done with a value.
    Done(Value),
    /// It calls the handler with what was thrown.
    Catch(Value),
}

/// What a try does next.
pub enum TryView {
    Done(ValueView),
    Catch(ValueView),
}

impl View for TryStep {
    type V = TryView;

    open spec fn view(&self) -> TryView {
        match *self {
            TryStep::Done(v) => TryView::Done(v@),
            TryStep::Catch(v) => TryView::Catch(v@),
        }
    }
}

/// What was thrown in the body: what is pending comes first, then what the call threw, and a
/// failure counts as its message.
pub open spec fn thrown_in(pending: Option<Value>, body: Body) -> Option<ValueView> {
    match pending {
        Some(e) => Some(e@),
        None => match body {
            Body::Value(_) => None,
            Body::Thrown(e) => Some(e@),
            Body::Failed(t) => Some(ValueView::Str(t@)),
        },
    }
}

/// What a try does behind its body, and whether the regions that the body opened are closed: they
/// are exactly where something was thrown.  Without a handler it comes to nil.
pub fn rt_try(pending: Option<Value>, body: Body, has_catch: bool) -> (r: (TryStep, bool))
    ensures
        match thrown_in(pending, body) {
            Some(e) => r.1 && r.0@ == (if has_catch { TryView::Catch(e) } else { TryView::Done(ValueView::Nil) }),
            None => !r.1 && body is Value && r.0@ == TryView::Done(body->Value_0@),
        },
{
    let thrown = match pending {
        Some(e) => e,
        None => match body {
            Body::Value(v) => return (TryStep::Done(v), false),
            Body::Thrown(e) => e,
            Body::Failed(t) => Value::Str(t),
        },
    };
    if has_catch { (TryStep::Catch(thrown), true) } else { (TryStep::Done(Value::Nil), true) }
}

/// What a try comes to behind its handler: nil where the handler threw or failed.
pub fn after_catch(result: Invoked) -> (r: Value)
    ensures
        match result {
            Invoked::Value(v) => r == v,
            _ => r@ == ValueView::Nil,
        },
{
    match result {
        Invoked::Value(v) => v,
        _ => Value::Nil,
    }
}

/// The printed forms one behind the other; nil prints as nothing.
pub open spec fn joined(parts: Seq<(bool, Seq<char>)>, n: int) -> Seq<char>
    decreases n,
{
    if n <= 0 || n > parts.len() {
        Seq::empty()
    } else if parts[n - 1].0 {
        joined(parts, n - 1)
    } else {
        joined(parts, n - 1) + parts[n - 1].1
    }
}

/// Values and their printed forms: whether they are nil, and the texts.
pub open spec fn parts_view(parts: Seq<(bool, String)>) -> Seq<(bool, Seq<char>)> {
    parts.map_values(|p: (bool, String)| (p.0, p.1@))
}

/// The text of several values.
pub fn rt_str_n(parts: &Vec<(bool, String)>) -> (r: Value)
    ensures
        r@ == ValueView::Str(joined(parts_view(parts@), parts@.len() as int)),
{
    let mut out = String::new();
    let mut i: usize = 0;
    while i < parts.len()
        invariant
            i <= parts@.len(),
            out@ == joined(parts_view(parts@), i as int),
        decreases parts@.len() - i,
    {
        assert(parts_view(parts@)[i as int] == (parts@[i as int].0, parts@[i as int].1@));
        if !parts[i].0 {
            out = out.concat(parts[i].1.as_str());
        }
        i += 1;
    }
    Value::Str(out)
}

/// The first `n` texts with a space between each two.
pub open spec fn spaced(ts: Seq<String>, n: int) -> Seq<char>
    decreases n,
{
    if n <= 0 || n > ts.len() {
        Seq::empty()
    } else if n == 1 {
        ts[0]@
    } else {
        spaced(ts, n - 1) + " "@ + ts[n - 1]@
    }
}

/// The line that several values print as.
pub fn rt_println_n(ts: &Vec<String>) -> (r: String)
    ensures
        r@ == spaced(ts@, ts@.len() as int),
{
    let mut out = String::new();
    let mut i: usize = 0;
    while i < ts.len()
        invariant
            i <= ts@.len(),
            out@ == spaced(ts@, i as int),
        decreases ts@.len() - i,
    {
        if i == 0 {
            out = ts[0].clone();
        } else {
            out = out.concat(" ").concat(ts[i].as_str());
        }
        i += 1;
    }
    out
}

} // verus!
