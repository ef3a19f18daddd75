//! What is done to source forms before they are compiled: which of them stay with the interpreter,
//! which pinned names they refer to, and how reader conditionals, `#(...)` and namespace aliases
//! are resolved.
use crate::form;
use crate::form::{copy_form, copy_span, Form, FormKind, FormView, KindView};
use crate::ir;
use crate::ir::{Span, SpanView};
use crate::native_dep;
use crate::text;
use crate::text::{base_name, less_text, of_chars, same, to_chars};
use vstd::prelude::*;
use vstd::string::*;

verus! {

/// The symbol that a list starts with.
pub open spec fn head_symbol(f: Form) -> Option<Seq<char>> {
    match f.kind {
        FormKind::List(parts) => if parts@.len() > 0 {
            match parts@[0].kind {
                FormKind::Symbol(s) => Some(s@),
                _ => None,
            }
        } else {
            None
        },
        _ => None,
    }
}

fn head(f: &Form) -> (r: Option<&String>)
    ensures
        match r {
            Some(s) => head_symbol(*f) == Some(s@),
            None => head_symbol(*f) is None,
        },
{
    match &f.kind {
        FormKind::List(parts) => {
            if parts.len() > 0 {
                match &parts[0].kind {
                    FormKind::Symbol(s) => Some(s),
                    _ => None,
                }
            } else {
                None
            }
        },
        _ => None,
    }
}

/// The word defines a binding.
pub open spec fn is_def_word(t: Seq<char>) -> bool {
    t == "def"@ || t == "defn"@ || t == "defn-"@
}

fn def_word(t: &str) -> (r: bool)
    ensures
        r == is_def_word(t@),
{
    same(t, "def") || same(t, "defn") || same(t, "defn-")
}

/// The word starts a form that the interpreter has to evaluate.
pub open spec fn is_interpreted_word(t: Seq<char>) -> bool {
    t == "defmacro"@ || t == "defonce"@ || t == "ns"@ || t == "require"@ || t == "defprotocol"@ || t == "extend-type"@ || t == "extend-protocol"@ || t == "defmulti"@ || t == "defmethod"@ || t == "defrecord"@
}

fn interpreted_word(t: &str) -> (r: bool)
    ensures
        r == is_interpreted_word(t@),
{
    same(t, "defmacro") || same(t, "defonce") || same(t, "ns") || same(t, "require") || same(t, "defprotocol") || same(t, "extend-type") || same(t, "extend-protocol") || same(t, "defmulti") || same(t, "defmethod") || same(t, "defrecord")
}

/// The word changes metadata.
pub open spec fn is_meta_word(t: Seq<char>) -> bool {
    t == "alter-meta!"@ || t == "vary-meta"@ || t == "reset-meta!"@ || t == "with-meta"@
}

fn meta_word(t: &str) -> (r: bool)
    ensures
        r == is_meta_word(t@),
{
    same(t, "alter-meta!") || same(t, "vary-meta") || same(t, "reset-meta!") || same(t, "with-meta")
}

/// The form defines a binding, so evaluating it does nothing else.
pub fn is_def_form(f: &Form) -> (r: bool)
    ensures
        r == (head_symbol(*f) matches Some(s) && is_def_word(s)),
{
    match head(f) {
        Some(s) => def_word(s.as_str()),
        None => false,
    }
}

/// The form has to be evaluated by the interpreter, as it stands in the source.
pub open spec fn wants_interpreter(f: Form) -> bool {
    head_symbol(f) matches Some(s) && is_interpreted_word(s)
}

/// Whether the form has to be evaluated by the interpreter, as it stands in the source.
pub fn needs_interpreter(f: &Form) -> (r: bool)
    ensures
        r == wants_interpreter(*f),
{
    match head(f) {
        Some(s) => interpreted_word(s.as_str()),
        None => false,
    }
}

/// Whether the symbol, in whatever namespace, is one that only the interpreter knows.
pub fn is_interpreter_only_sym(s: &str) -> (r: bool)
    ensures
        r == is_meta_word(text::after_last(s@, '/')),
{
    let base = base_name(s, '/');
    meta_word(base.as_str())
}

/// The word is an async special form.
pub open spec fn is_async_word(t: Seq<char>) -> bool {
    t == "await"@ || t == "async-spawn"@
}

fn async_word(t: &str) -> (r: bool)
    ensures
        r == is_async_word(t@),
{
    same(t, "await") || same(t, "async-spawn")
}

/// The expanded form calls, at some depth, something that only the interpreter knows.
pub open spec fn expanded_wants(f: Form) -> bool
    decreases f, 0int,
{
    match f.kind {
        FormKind::List(parts) => {
            let at_head = match head_symbol(f) {
                Some(s) => is_meta_word(text::after_last(s, '/')) || is_async_word(text::after_last(s, '/')),
                None => false,
            };
            at_head || any_wants(parts@, 0)
        },
        FormKind::Vector(elems) => any_wants(elems@, 0),
        FormKind::HashSet(elems) => any_wants(elems@, 0),
        FormKind::Dict(elems) => any_wants(elems@, 0),
        _ => false,
    }
}

pub open spec fn any_wants(fs: Seq<Form>, i: int) -> bool
    decreases fs, fs.len() - i,
{
    0 <= i < fs.len() && (expanded_wants(fs[i]) || any_wants(fs, i + 1))
}

/// Whether the expanded form calls, at some depth, something that only the interpreter knows.
pub fn expanded_needs_interpreter(f: &Form) -> (r: bool)
    ensures
        r == expanded_wants(*f),
    decreases f, 0int,
{
    match &f.kind {
        FormKind::List(parts) => {
            if let Some(s) = head(f) {
                let base = base_name(s.as_str(), '/');
                if meta_word(base.as_str()) || async_word(base.as_str()) {
                    return true;
                }
            }
            any_needs(parts)
        },
        FormKind::Vector(elems) => any_needs(elems),
        FormKind::HashSet(elems) => any_needs(elems),
        FormKind::Dict(elems) => any_needs(elems),
        _ => false,
    }
}

fn any_needs(fs: &Vec<Form>) -> (r: bool)
    ensures
        r == any_wants(fs@, 0),
    decreases fs@, fs@.len(),
{
    let mut i: usize = 0;
    while i < fs.len()
        invariant
            i <= fs@.len(),
            any_wants(fs@, 0) == any_wants(fs@, i as int),
        decreases fs@.len() - i,
    {
        if expanded_needs_interpreter(&fs[i]) {
            return true;
        }
        i += 1;
    }
    false
}

/// The form at `i` stays with the interpreter: for what it is, or for what it expands to.
pub open spec fn stays(forms: Seq<Form>, expanded: Seq<Form>, i: int) -> bool {
    wants_interpreter(forms[i]) || expanded_wants(expanded[i])
}

/// The positions among the first `n` of the forms that stay with the interpreter, or of the others.
pub open spec fn positions(forms: Seq<Form>, expanded: Seq<Form>, staying: bool, n: int) -> Seq<usize>
    decreases n,
{
    if n <= 0 {
        Seq::empty()
    } else if stays(forms, expanded, n - 1) == staying {
        positions(forms, expanded, staying, n - 1).push((n - 1) as usize)
    } else {
        positions(forms, expanded, staying, n - 1)
    }
}

/// The positions of the top-level forms that stay with the interpreter, and of those that are
/// compiled, each in the order of the source.
pub fn partition(forms: &Vec<Form>, expanded: &Vec<Form>) -> (r: (Vec<usize>, Vec<usize>))
    requires
        forms@.len() == expanded@.len(),
    ensures
        r.0@ == positions(forms@, expanded@, true, forms@.len() as int),
        r.1@ == positions(forms@, expanded@, false, forms@.len() as int),
{
    let mut interpreted: Vec<usize> = Vec::new();
    let mut compiled: Vec<usize> = Vec::new();
    let mut i: usize = 0;
    while i < forms.len()
        invariant
            i <= forms@.len(),
            forms@.len() == expanded@.len(),
            interpreted@ == positions(forms@, expanded@, true, i as int),
            compiled@ == positions(forms@, expanded@, false, i as int),
        decreases forms@.len() - i,
    {
        if needs_interpreter(&forms[i]) || expanded_needs_interpreter(&expanded[i]) {
            interpreted.push(i);
        } else {
            compiled.push(i);
        }
        i += 1;
    }
    (interpreted, compiled)
}

/// Every form stays with the interpreter or is compiled, and none is both.
pub proof fn partition_is_complete(forms: Seq<Form>, expanded: Seq<Form>, n: int, i: usize)
    requires
        0 <= n <= forms.len() <= usize::MAX,
    ensures
        positions(forms, expanded, true, n).len() + positions(forms, expanded, false, n).len() == n,
        i < n <==> positions(forms, expanded, true, n).contains(i) || positions(forms, expanded, false, n).contains(i),
        !(positions(forms, expanded, true, n).contains(i) && positions(forms, expanded, false, n).contains(i)),
    decreases n,
{
    if n > 0 {
        partition_is_complete(forms, expanded, n - 1, i);
        let a = positions(forms, expanded, true, n - 1);
        let b = positions(forms, expanded, false, n - 1);
        let x = (n - 1) as usize;
        partition_is_complete(forms, expanded, n - 1, x);
        push_contains(a, x, i);
        push_contains(b, x, i);
    }
}

proof fn push_contains(s: Seq<usize>, x: usize, i: usize)
    ensures
        s.push(x).contains(i) == (s.contains(i) || x == i),
{
    let t = s.push(x);
    if s.contains(i) {
        let k = choose|k: int| 0 <= k < s.len() && s[k] == i;
        assert(t[k] == i);
    }
    if x == i {
        assert(t[s.len() as int] == i);
    }
    if t.contains(i) && x != i {
        let k = choose|k: int| 0 <= k < t.len() && t[k] == i;
        assert(s[k] == i);
    }
}

/// The body of a main function: nil where there is nothing to compile.
pub fn or_nil(forms: Vec<Form>) -> (r: Vec<Form>)
    ensures
        forms@.len() > 0 ==> r == forms,
        forms@.len() == 0 ==> r@.len() == 1 && r@[0].kind == FormKind::Nil
            && r@[0].span@ == (SpanView { file: "<aot>"@, start: 0, end: 0, line: 1, col: 1 }),
{
    if forms.len() > 0 {
        forms
    } else {
        let mut out: Vec<Form> = Vec::new();
        out.push(Form { kind: FormKind::Nil, span: Span { file: "<aot>".to_owned(), start: 0, end: 0, line: 1, col: 1 } });
        out
    }
}

/// A pinned name: its namespace, if it has one, and the commit.
pub type Pin = (Option<Seq<char>>, Seq<char>);

/// The symbols in a form, quoted or not, from left to right.
pub open spec fn symbols_of(f: Form) -> Seq<Seq<char>>
    decreases f, 0int,
{
    match f.kind {
        FormKind::Symbol(s) => seq![s@],
        FormKind::List(fs) => symbols_in(fs@, fs@.len() as int),
        FormKind::Vector(fs) => symbols_in(fs@, fs@.len() as int),
        FormKind::Dict(fs) => symbols_in(fs@, fs@.len() as int),
        FormKind::HashSet(fs) => symbols_in(fs@, fs@.len() as int),
        FormKind::AnonFn(fs) => symbols_in(fs@, fs@.len() as int),
        FormKind::Quote(x) => symbols_of(*x),
        FormKind::SyntaxQuote(x) => symbols_of(*x),
        FormKind::Unquote(x) => symbols_of(*x),
        FormKind::UnquoteSplice(x) => symbols_of(*x),
        FormKind::Deref(x) => symbols_of(*x),
        FormKind::Var(x) => symbols_of(*x),
        FormKind::TaggedLiteral(_, x) => symbols_of(*x),
        FormKind::Meta(m, x) => symbols_of(*m) + symbols_of(*x),
        FormKind::ReaderCond(_, clauses, _, _) => symbols_in(clauses@, clauses@.len() as int),
        _ => Seq::empty(),
    }
}

pub open spec fn symbols_in(fs: Seq<Form>, n: int) -> Seq<Seq<char>>
    decreases fs, n,
{
    if n <= 0 || n > fs.len() { Seq::empty() } else { symbols_in(fs, n - 1) + symbols_of(fs[n - 1]) }
}

pub open spec fn pin_view(p: (Option<String>, String)) -> Pin {
    (ir::text_opt(p.0), p.1@)
}

pub open spec fn pins_view(ps: Seq<(Option<String>, String)>) -> Seq<Pin> {
    ps.map_values(|p: (Option<String>, String)| pin_view(p))
}

/// Collects the symbols in a form.
pub fn collect_symbols(f: &Form, out: &mut Vec<String>)
    ensures
        ir::texts_view(final(out)@) == ir::texts_view(old(out)@) + symbols_of(*f),
    decreases f, 0int,
{
    let ghost start = ir::texts_view(out@);
    match &f.kind {
        FormKind::Symbol(s) => {
            out.push(s.clone());
            assert(ir::texts_view(out@) =~= start + seq![s@]);
        },
        FormKind::List(fs) => collect_in(fs, out),
        FormKind::Vector(fs) => collect_in(fs, out),
        FormKind::Dict(fs) => collect_in(fs, out),
        FormKind::HashSet(fs) => collect_in(fs, out),
        FormKind::AnonFn(fs) => collect_in(fs, out),
        FormKind::Quote(x) => collect_symbols(x, out),
        FormKind::SyntaxQuote(x) => collect_symbols(x, out),
        FormKind::Unquote(x) => collect_symbols(x, out),
        FormKind::UnquoteSplice(x) => collect_symbols(x, out),
        FormKind::Deref(x) => collect_symbols(x, out),
        FormKind::Var(x) => collect_symbols(x, out),
        FormKind::TaggedLiteral(_, x) => collect_symbols(x, out),
        FormKind::Meta(m, x) => {
            collect_symbols(m, out);
            collect_symbols(x, out);
            assert(ir::texts_view(out@) =~= start + (symbols_of(**m) + symbols_of(**x)));
        },
        FormKind::ReaderCond(_, clauses, _, _) => collect_in(clauses, out),
        _ => {
            assert(ir::texts_view(out@) =~= start + Seq::<Seq<char>>::empty());
        },
    }
}

fn collect_in(fs: &Vec<Form>, out: &mut Vec<String>)
    ensures
        ir::texts_view(final(out)@) == ir::texts_view(old(out)@) + symbols_in(fs@, fs@.len() as int),
    decreases fs@, fs@.len(),
{
    let mut i: usize = 0;
    assert(ir::texts_view(old(out)@) + symbols_in(fs@, 0) =~= ir::texts_view(old(out)@));
    while i < fs.len()
        invariant
            i <= fs@.len(),
            ir::texts_view(out@) == ir::texts_view(old(out)@) + symbols_in(fs@, i as int),
        decreases fs@.len() - i,
    {
        collect_symbols(&fs[i], out);
        assert(ir::texts_view(out@) =~= ir::texts_view(old(out)@) + (symbols_in(fs@, i as int) + symbols_of(fs@[i as int])));
        i += 1;
    }
}

/// The symbols in a program, from left to right.
pub fn symbols(forms: &Vec<Form>) -> (r: Vec<String>)
    ensures
        ir::texts_view(r@) == symbols_in(forms@, forms@.len() as int),
{
    let mut out: Vec<String> = Vec::new();
    assert(ir::texts_view(out@) =~= Seq::empty());
    collect_in(forms, &mut out);
    assert(ir::texts_view(out@) =~= symbols_in(forms@, forms@.len() as int));
    out
}

/// One pin comes before another: first by namespace, where none comes first, then by commit.
pub open spec fn pin_less(a: Pin, b: Pin) -> bool {
    match (a.0, b.0) {
        (None, Some(_)) => true,
        (Some(_), None) => false,
        (None, None) => text::less(a.1, b.1),
        (Some(x), Some(y)) => text::less(x, y) || (x == y && text::less(a.1, b.1)),
    }
}

fn less_pin(a: &(Option<String>, String), b: &(Option<String>, String)) -> (r: bool)
    ensures
        r == pin_less(pin_view(*a), pin_view(*b)),
{
    match (&a.0, &b.0) {
        (None, Some(_)) => true,
        (Some(_), None) => false,
        (None, None) => less_text(a.1.as_str(), b.1.as_str()),
        (Some(x), Some(y)) => less_text(x.as_str(), y.as_str()) || (same(x.as_str(), y.as_str()) && less_text(a.1.as_str(), b.1.as_str())),
    }
}

proof fn pin_order(a: Pin, b: Pin, c: Pin)
    ensures
        !pin_less(a, a),
        pin_less(a, b) && pin_less(b, c) ==> pin_less(a, c),
        pin_less(a, b) || pin_less(b, a) || a == b,
{
    text::less_orders(a.1, b.1, c.1);
    if a.0 is Some {
        text::less_orders(a.0->0, a.0->0, a.0->0);
    }
    if a.0 is Some && b.0 is Some {
        text::less_orders(a.0->0, b.0->0, if c.0 is Some { c.0->0 } else { a.0->0 });
    }
}

/// The pins come in their order, each once.
pub open spec fn pins_ascend(ps: Seq<Pin>) -> bool {
    forall|i: int, j: int| 0 <= i < j < ps.len() ==> pin_less(#[trigger] ps[i], #[trigger] ps[j])
}

/// Puts a pin in its place, unless it is there already.
fn insert_pin(out: &mut Vec<(Option<String>, String)>, pin: (Option<String>, String))
    requires
        pins_ascend(pins_view(old(out)@)),
    ensures
        pins_ascend(pins_view(final(out)@)),
        forall|p: Pin| #[trigger] pins_view(final(out)@).contains(p) == (pins_view(old(out)@).contains(p) || p == pin_view(pin)),
{
    let ghost before = pins_view(out@);
    let ghost x = pin_view(pin);
    let mut i: usize = 0;
    while i < out.len() && less_pin(&out[i], &pin)
        invariant
            i <= out@.len(),
            before == pins_view(out@),
            x == pin_view(pin),
            forall|k: int| 0 <= k < i ==> pin_less(#[trigger] before[k], x),
        decreases out@.len() - i,
    {
        assert(before[i as int] == pin_view(out@[i as int]));
        i += 1;
    }
    if i < out.len() && !less_pin(&pin, &out[i]) {
        proof {
            assert(before[i as int] == pin_view(out@[i as int]));
            pin_order(before[i as int], x, x);
            assert(before.contains(x));
        }
        return;
    }
    out.insert(i, pin);
    proof {
        let after = pins_view(out@);
        assert(after =~= before.insert(i as int, x));
        assert forall|a: int, b: int| 0 <= a < b < after.len() implies pin_less(#[trigger] after[a], #[trigger] after[b]) by {
            if a < i && b > i {
                assert(pin_less(before[a], before[b - 1]));
            } else if a == i {
                assert(pin_less(x, before[i as int]));
                if b - 1 > i {
                    assert(pin_less(before[i as int], before[b - 1]));
                    pin_order(x, before[i as int], before[b - 1]);
                }
            } else if a > i {
                assert(pin_less(before[a - 1], before[b - 1]));
            } else if b < i {
                assert(pin_less(before[a], before[b]));
            }
        }
        assert forall|p: Pin| #[trigger] after.contains(p) == (before.contains(p) || p == x) by {
            if before.contains(p) {
                let k = choose|k: int| 0 <= k < before.len() && before[k] == p;
                if k < i {
                    assert(after[k] == p);
                } else {
                    assert(after[k + 1] == p);
                }
            }
            if p == x {
                assert(after[i as int] == p);
            }
            if after.contains(p) && p != x {
                let k = choose|k: int| 0 <= k < after.len() && after[k] == p;
                if k < i {
                    assert(before[k] == p);
                } else {
                    assert(before[k - 1] == p);
                }
            }
        }
    }
}

/// One of the symbols of a program is the pin, where `found` holds what the reader says of each.
pub open spec fn is_found(found: Seq<Option<(Option<String>, String)>>, p: Pin) -> bool {
    exists|i: int| 0 <= i < found.len() && (#[trigger] found[i]) is Some && pin_view(found[i]->0) == p
}

/// The pins that a program refers to, in order, each once.
pub fn sorted_pins(found: Vec<Option<(Option<String>, String)>>) -> (r: Vec<(Option<String>, String)>)
    ensures
        pins_ascend(pins_view(r@)),
        forall|p: Pin| #[trigger] pins_view(r@).contains(p) == is_found(found@, p),
{
    let ghost all = found@;
    let mut found = found;
    let mut out: Vec<(Option<String>, String)> = Vec::new();
    assert(pins_view(out@) =~= Seq::empty());
    assert(found@ =~= all.take(all.len() as int));
    assert(all.skip(all.len() as int) =~= Seq::empty());
    while found.len() > 0
        invariant
            found@.len() <= all.len(),
            found@ == all.take(found@.len() as int),
            pins_ascend(pins_view(out@)),
            forall|p: Pin| #[trigger] pins_view(out@).contains(p) == is_found(all.skip(found@.len() as int), p),
        decreases found@.len(),
    {
        let ghost n = found@.len() as int;
        let ghost before = out@;
        let last = found.pop().unwrap();
        proof {
            assert(last == all[n - 1]);
            assert(found@ =~= all.take(n - 1));
            one_more_is_found(all, n);
        }
        match last {
            Some(pin) => insert_pin(&mut out, pin),
            None => {},
        }
    }
    assert(all.skip(0) =~= all);
    out
}

proof fn one_more_is_found(all: Seq<Option<(Option<String>, String)>>, n: int)
    requires
        0 < n <= all.len(),
    ensures
        forall|p: Pin| #[trigger] is_found(all.skip(n - 1), p) == (is_found(all.skip(n), p) || (all[n - 1] is Some && pin_view(all[n - 1]->0) == p)),
{
    let a = all.skip(n);
    let b = all.skip(n - 1);
    assert forall|p: Pin| #[trigger] is_found(b, p) == (is_found(a, p) || (all[n - 1] is Some && pin_view(all[n - 1]->0) == p)) by {
        if is_found(a, p) {
            let k = choose|k: int| 0 <= k < a.len() && (#[trigger] a[k]) is Some && pin_view(a[k]->0) == p;
            assert(b[k + 1] == a[k]);
        }
        assert(b[0] == all[n - 1]);
        if is_found(b, p) {
            let k = choose|k: int| 0 <= k < b.len() && (#[trigger] b[k]) is Some && pin_view(b[k]->0) == p;
            if k > 0 {
                assert(a[k - 1] == b[k]);
            }
        }
    }
}

/// A form without reader conditionals: each is its branch, and nil where it has none or would have
/// to be spliced into a place that takes one form.
pub open spec fn unconditional(f: FormView) -> FormView
    decreases f, 0int,
{
    match f.kind {
        KindView::List(fs) => FormView { kind: KindView::List(all_unconditional(fs, fs.len() as int)), ..f },
        KindView::Vector(fs) => FormView { kind: KindView::Vector(all_unconditional(fs, fs.len() as int)), ..f },
        KindView::Dict(fs) => FormView { kind: KindView::Dict(all_unconditional(fs, fs.len() as int)), ..f },
        KindView::HashSet(fs) => FormView { kind: KindView::HashSet(all_unconditional(fs, fs.len() as int)), ..f },
        KindView::AnonFn(fs) => FormView { kind: KindView::AnonFn(all_unconditional(fs, fs.len() as int)), ..f },
        KindView::Quote(x) => FormView { kind: KindView::Quote(Box::new(unconditional(*x))), ..f },
        KindView::SyntaxQuote(x) => FormView { kind: KindView::SyntaxQuote(Box::new(unconditional(*x))), ..f },
        KindView::Unquote(x) => FormView { kind: KindView::Unquote(Box::new(unconditional(*x))), ..f },
        KindView::UnquoteSplice(x) => FormView { kind: KindView::UnquoteSplice(Box::new(unconditional(*x))), ..f },
        KindView::Deref(x) => FormView { kind: KindView::Deref(Box::new(unconditional(*x))), ..f },
        KindView::Var(x) => FormView { kind: KindView::Var(Box::new(unconditional(*x))), ..f },
        KindView::Meta(m, x) => FormView { kind: KindView::Meta(Box::new(unconditional(*m)), Box::new(unconditional(*x))), ..f },
        KindView::TaggedLiteral(t, x) => FormView { kind: KindView::TaggedLiteral(t, Box::new(unconditional(*x))), ..f },
        KindView::ReaderCond(splicing, clauses, branch, _) => if !splicing && branch is Some && branch->0 < clauses.len() {
            unconditional(clauses[branch->0 as int])
        } else {
            FormView { kind: KindView::Nil, ..f }
        },
        _ => f,
    }
}

/// The first `n` forms of a sequence without reader conditionals: the forms that the reader has for one
/// take its place.
pub open spec fn all_unconditional(fs: Seq<FormView>, n: int) -> Seq<FormView>
    decreases fs, n,
{
    if n <= 0 || n > fs.len() {
        Seq::empty()
    } else {
        let rest = all_unconditional(fs, n - 1);
        match fs[n - 1].kind {
            KindView::ReaderCond(_, _, _, items) => rest + each_unconditional(items, items.len() as int),
            _ => rest.push(unconditional(fs[n - 1])),
        }
    }
}

/// The first `n` forms, each without reader conditionals.
pub open spec fn each_unconditional(fs: Seq<FormView>, n: int) -> Seq<FormView>
    decreases fs, n,
{
    if n <= 0 || n > fs.len() { Seq::empty() } else { each_unconditional(fs, n - 1).push(unconditional(fs[n - 1])) }
}

/// A copy of a form without reader conditionals.
pub fn expand_reader_cond_form(f: &Form) -> (r: Form)
    ensures
        form::form_view(r) == unconditional(form::form_view(*f)),
    decreases f, 0int,
{
    assert(form::form_view(*f).kind == form::kind_view(f.kind));
    let kind = match &f.kind {
        FormKind::List(fs) => FormKind::List(expand_reader_conds_deep(fs)),
        FormKind::Vector(fs) => FormKind::Vector(expand_reader_conds_deep(fs)),
        FormKind::Dict(fs) => FormKind::Dict(expand_reader_conds_deep(fs)),
        FormKind::HashSet(fs) => FormKind::HashSet(expand_reader_conds_deep(fs)),
        FormKind::AnonFn(fs) => FormKind::AnonFn(expand_reader_conds_deep(fs)),
        FormKind::Quote(x) => FormKind::Quote(Box::new(expand_reader_cond_form(x))),
        FormKind::SyntaxQuote(x) => FormKind::SyntaxQuote(Box::new(expand_reader_cond_form(x))),
        FormKind::Unquote(x) => FormKind::Unquote(Box::new(expand_reader_cond_form(x))),
        FormKind::UnquoteSplice(x) => FormKind::UnquoteSplice(Box::new(expand_reader_cond_form(x))),
        FormKind::Deref(x) => FormKind::Deref(Box::new(expand_reader_cond_form(x))),
        FormKind::Var(x) => FormKind::Var(Box::new(expand_reader_cond_form(x))),
        FormKind::Meta(m, x) => FormKind::Meta(Box::new(expand_reader_cond_form(m)), Box::new(expand_reader_cond_form(x))),
        FormKind::TaggedLiteral(t, x) => FormKind::TaggedLiteral(t.clone(), Box::new(expand_reader_cond_form(x))),
        FormKind::ReaderCond(splicing, clauses, branch, _) => {
            proof {
                form::forms_view_at(clauses@);
            }
            match branch {
                Some(k) => {
                    if !*splicing && *k < clauses.len() {
                        return expand_reader_cond_form(&clauses[*k]);
                    }
                },
                None => {},
            }
            FormKind::Nil
        },
        _ => return copy_form(f),
    };
    let r = Form { kind, span: copy_span(&f.span) };
    assert(form::form_view(r).kind == form::kind_view(r.kind));
    r
}

/// A copy of a sequence of forms without reader conditionals.
pub fn expand_reader_conds_deep(fs: &Vec<Form>) -> (r: Vec<Form>)
    ensures
        form::forms_view(r@) == all_unconditional(form::forms_view(fs@), form::forms_view(fs@).len() as int),
    decreases fs@, fs@.len(),
{
    let ghost fv = form::forms_view(fs@);
    proof {
        form::forms_view_at(fs@);
    }
    let mut out: Vec<Form> = Vec::new();
    let mut i: usize = 0;
    while i < fs.len()
        invariant
            i <= fs@.len(),
            fv == form::forms_view(fs@),
            fv.len() == fs@.len(),
            forall|k: int| 0 <= k < fv.len() ==> #[trigger] fv[k] == form::form_view(fs@[k]),
            form::forms_view(out@) == all_unconditional(fv, i as int),
        decreases fs@.len() - i,
    {
        assert(fv[i as int] == form::form_view(fs@[i as int]));
        assert(form::form_view(fs@[i as int]).kind == form::kind_view(fs@[i as int].kind));
        match &fs[i].kind {
            FormKind::ReaderCond(_, _, _, items) => expand_each(items, &mut out),
            _ => {
                let x = expand_reader_cond_form(&fs[i]);
                proof {
                    form::forms_view_push(out@, x);
                }
                out.push(x);
            },
        }
        i += 1;
    }
    out
}

fn expand_each(fs: &Vec<Form>, out: &mut Vec<Form>)
    ensures
        form::forms_view(final(out)@) == form::forms_view(old(out)@) + each_unconditional(form::forms_view(fs@), form::forms_view(fs@).len() as int),
    decreases fs@, fs@.len(),
{
    let ghost fv = form::forms_view(fs@);
    let ghost start = form::forms_view(out@);
    proof {
        form::forms_view_at(fs@);
        assert(start + each_unconditional(fv, 0) =~= start);
    }
    let mut i: usize = 0;
    while i < fs.len()
        invariant
            i <= fs@.len(),
            start == form::forms_view(old(out)@),
            fv == form::forms_view(fs@),
            fv.len() == fs@.len(),
            forall|k: int| 0 <= k < fv.len() ==> #[trigger] fv[k] == form::form_view(fs@[k]),
            form::forms_view(out@) == start + each_unconditional(fv, i as int),
        decreases fs@.len() - i,
    {
        assert(fv[i as int] == form::form_view(fs@[i as int]));
        let x = expand_reader_cond_form(&fs[i]);
        proof {
            form::forms_view_push(out@, x);
            assert((start + each_unconditional(fv, i as int)).push(form::form_view(x)) =~= start + each_unconditional(fv, i as int).push(form::form_view(x)));
        }
        out.push(x);
        i += 1;
    }
}

/// The namespace that an alias stands for, from entry `i` on.
pub open spec fn alias_of(aliases: Seq<(Seq<char>, Seq<char>)>, alias: Seq<char>, i: int) -> Option<Seq<char>>
    decreases aliases.len() - i,
{
    if i < 0 || i >= aliases.len() {
        None
    } else if aliases[i].0 == alias {
        Some(aliases[i].1)
    } else {
        alias_of(aliases, alias, i + 1)
    }
}

/// A symbol whose alias is spelled out.
pub open spec fn qualified_symbol(s: Seq<char>, aliases: Seq<(Seq<char>, Seq<char>)>) -> Seq<char> {
    let k = native_dep::first_at(s, '/', 0);
    if 0 < k && k + 1 < s.len() {
        match alias_of(aliases, s.subrange(0, k), 0) {
            Some(ns) => ns + "/"@ + s.subrange(k + 1, s.len() as int),
            None => s,
        }
    } else {
        s
    }
}

/// The list quotes what follows its head.
pub open spec fn is_quoting(fs: Seq<FormView>) -> bool {
    fs.len() > 0 && fs[0].kind == KindView::Symbol("quote"@)
}

fn quotes(fs: &Vec<Form>) -> (r: bool)
    ensures
        r == is_quoting(form::forms_view(fs@)),
{
    proof {
        form::forms_view_at(fs@);
    }
    if fs.len() == 0 {
        return false;
    }
    assert(form::forms_view(fs@)[0] == form::form_view(fs@[0]));
    assert(form::form_view(fs@[0]).kind == form::kind_view(fs@[0].kind));
    match &fs[0].kind {
        FormKind::Symbol(s) => same(s.as_str(), "quote"),
        _ => false,
    }
}

/// A form whose aliases are spelled out, but for what is quoted.
pub open spec fn qualified(f: FormView, aliases: Seq<(Seq<char>, Seq<char>)>) -> FormView
    decreases f, 0int,
{
    match f.kind {
        KindView::Symbol(s) => FormView { kind: KindView::Symbol(qualified_symbol(s, aliases)), ..f },
        KindView::List(fs) => if is_quoting(fs) { f } else { FormView { kind: KindView::List(all_qualified(fs, fs.len() as int, aliases)), ..f } },
        KindView::Vector(fs) => FormView { kind: KindView::Vector(all_qualified(fs, fs.len() as int, aliases)), ..f },
        KindView::Dict(fs) => FormView { kind: KindView::Dict(all_qualified(fs, fs.len() as int, aliases)), ..f },
        KindView::HashSet(fs) => FormView { kind: KindView::HashSet(all_qualified(fs, fs.len() as int, aliases)), ..f },
        KindView::AnonFn(fs) => FormView { kind: KindView::AnonFn(all_qualified(fs, fs.len() as int, aliases)), ..f },
        KindView::SyntaxQuote(x) => FormView { kind: KindView::SyntaxQuote(Box::new(qualified(*x, aliases))), ..f },
        KindView::Unquote(x) => FormView { kind: KindView::Unquote(Box::new(qualified(*x, aliases))), ..f },
        KindView::UnquoteSplice(x) => FormView { kind: KindView::UnquoteSplice(Box::new(qualified(*x, aliases))), ..f },
        KindView::Deref(x) => FormView { kind: KindView::Deref(Box::new(qualified(*x, aliases))), ..f },
        KindView::Var(x) => FormView { kind: KindView::Var(Box::new(qualified(*x, aliases))), ..f },
        KindView::Meta(m, x) => FormView { kind: KindView::Meta(Box::new(qualified(*m, aliases)), Box::new(qualified(*x, aliases))), ..f },
        KindView::TaggedLiteral(t, x) => FormView { kind: KindView::TaggedLiteral(t, Box::new(qualified(*x, aliases))), ..f },
        _ => f,
    }
}

pub open spec fn all_qualified(fs: Seq<FormView>, n: int, aliases: Seq<(Seq<char>, Seq<char>)>) -> Seq<FormView>
    decreases fs, n,
{
    if n <= 0 || n > fs.len() { Seq::empty() } else { all_qualified(fs, n - 1, aliases).push(qualified(fs[n - 1], aliases)) }
}

pub open spec fn aliases_view(aliases: Seq<(String, String)>) -> Seq<(Seq<char>, Seq<char>)> {
    aliases.map_values(|a: (String, String)| (a.0@, a.1@))
}

pub(crate) fn resolve_alias<'a>(aliases: &'a Vec<(String, String)>, alias: &str) -> (r: Option<&'a String>)
    ensures
        match r {
            Some(ns) => alias_of(aliases_view(aliases@), alias@, 0) == Some(ns@),
            None => alias_of(aliases_view(aliases@), alias@, 0) is None,
        },
{
    let mut i: usize = 0;
    while i < aliases.len()
        invariant
            i <= aliases@.len(),
            alias_of(aliases_view(aliases@), alias@, 0) == alias_of(aliases_view(aliases@), alias@, i as int),
        decreases aliases@.len() - i,
    {
        assert(aliases_view(aliases@)[i as int] == (aliases@[i as int].0@, aliases@[i as int].1@));
        if same(aliases[i].0.as_str(), alias) {
            return Some(&aliases[i].1);
        }
        i += 1;
    }
    None
}

fn qualify_symbol(s: &String, aliases: &Vec<(String, String)>) -> (r: String)
    ensures
        r@ == qualified_symbol(s@, aliases_view(aliases@)),
{
    let cs = to_chars(s.as_str());
    let n: usize = cs.len();
    let mut k: usize = 0;
    while k < n && cs[k] != '/'
        invariant
            k <= n,
            n == cs@.len(),
            native_dep::first_at(cs@, '/', 0) == native_dep::first_at(cs@, '/', k as int),
        decreases n - k,
    {
        k += 1;
    }
    if 0 < k && k < n && k + 1 < n {
        let alias = of_chars(&cs, 0, k);
        match resolve_alias(aliases, alias.as_str()) {
            Some(ns) => ns.clone().concat("/").concat(of_chars(&cs, k + 1, n).as_str()),
            None => s.clone(),
        }
    } else {
        s.clone()
    }
}

/// A copy of a form whose aliases are spelled out, but for what is quoted.
pub fn qualify_aliases(f: &Form, aliases: &Vec<(String, String)>) -> (r: Form)
    ensures
        form::form_view(r) == qualified(form::form_view(*f), aliases_view(aliases@)),
    decreases f, 0int,
{
    assert(form::form_view(*f).kind == form::kind_view(f.kind));
    let kind = match &f.kind {
        FormKind::Symbol(s) => FormKind::Symbol(qualify_symbol(s, aliases)),
        FormKind::List(fs) => if quotes(fs) { return copy_form(f) } else { FormKind::List(qualify_all(fs, aliases)) },
        FormKind::Vector(fs) => FormKind::Vector(qualify_all(fs, aliases)),
        FormKind::Dict(fs) => FormKind::Dict(qualify_all(fs, aliases)),
        FormKind::HashSet(fs) => FormKind::HashSet(qualify_all(fs, aliases)),
        FormKind::AnonFn(fs) => FormKind::AnonFn(qualify_all(fs, aliases)),
        FormKind::SyntaxQuote(x) => FormKind::SyntaxQuote(Box::new(qualify_aliases(x, aliases))),
        FormKind::Unquote(x) => FormKind::Unquote(Box::new(qualify_aliases(x, aliases))),
        FormKind::UnquoteSplice(x) => FormKind::UnquoteSplice(Box::new(qualify_aliases(x, aliases))),
        FormKind::Deref(x) => FormKind::Deref(Box::new(qualify_aliases(x, aliases))),
        FormKind::Var(x) => FormKind::Var(Box::new(qualify_aliases(x, aliases))),
        FormKind::Meta(m, x) => FormKind::Meta(Box::new(qualify_aliases(m, aliases)), Box::new(qualify_aliases(x, aliases))),
        FormKind::TaggedLiteral(t, x) => FormKind::TaggedLiteral(t.clone(), Box::new(qualify_aliases(x, aliases))),
        _ => return copy_form(f),
    };
    let r = Form { kind, span: copy_span(&f.span) };
    assert(form::form_view(r).kind == form::kind_view(r.kind));
    r
}

fn qualify_all(fs: &Vec<Form>, aliases: &Vec<(String, String)>) -> (r: Vec<Form>)
    ensures
        form::forms_view(r@) == all_qualified(form::forms_view(fs@), form::forms_view(fs@).len() as int, aliases_view(aliases@)),
    decreases fs@, fs@.len(),
{
    let ghost fv = form::forms_view(fs@);
    let ghost av = aliases_view(aliases@);
    proof {
        form::forms_view_at(fs@);
    }
    let mut out: Vec<Form> = Vec::new();
    let mut i: usize = 0;
    while i < fs.len()
        invariant
            i <= fs@.len(),
            fv == form::forms_view(fs@),
            av == aliases_view(aliases@),
            fv.len() == fs@.len(),
            forall|k: int| 0 <= k < fv.len() ==> #[trigger] fv[k] == form::form_view(fs@[k]),
            form::forms_view(out@) == all_qualified(fv, i as int, av),
        decreases fs@.len() - i,
    {
        assert(fv[i as int] == form::form_view(fs@[i as int]));
        let x = qualify_aliases(&fs[i], aliases);
        proof {
            form::forms_view_push(out@, x);
        }
        out.push(x);
        i += 1;
    }
    out
}

/// The `#(...)` of a form that are not inside another, from left to right.
pub open spec fn anon_fns(f: FormView) -> Seq<FormView>
    decreases f, 0int,
{
    match f.kind {
        KindView::AnonFn(_) => seq![f],
        KindView::List(fs) => anon_fns_in(fs, fs.len() as int),
        KindView::Vector(fs) => anon_fns_in(fs, fs.len() as int),
        KindView::Dict(fs) => anon_fns_in(fs, fs.len() as int),
        KindView::HashSet(fs) => anon_fns_in(fs, fs.len() as int),
        KindView::Quote(x) => anon_fns(*x),
        KindView::SyntaxQuote(x) => anon_fns(*x),
        KindView::Unquote(x) => anon_fns(*x),
        KindView::UnquoteSplice(x) => anon_fns(*x),
        KindView::Deref(x) => anon_fns(*x),
        KindView::Var(x) => anon_fns(*x),
        KindView::Meta(m, x) => anon_fns(*m) + anon_fns(*x),
        KindView::TaggedLiteral(_, x) => anon_fns(*x),
        _ => Seq::empty(),
    }
}

pub open spec fn anon_fns_in(fs: Seq<FormView>, n: int) -> Seq<FormView>
    decreases fs, n,
{
    if n <= 0 || n > fs.len() { Seq::empty() } else { anon_fns_in(fs, n - 1) + anon_fns(fs[n - 1]) }
}

/// A form whose outermost `#(...)` are replaced, one after the other, by `given` from `k` on.
pub open spec fn replaced(f: FormView, given: Seq<FormView>, k: int) -> FormView
    decreases f, 0int,
{
    match f.kind {
        KindView::AnonFn(_) => given[k],
        KindView::List(fs) => FormView { kind: KindView::List(all_replaced(fs, fs.len() as int, given, k)), ..f },
        KindView::Vector(fs) => FormView { kind: KindView::Vector(all_replaced(fs, fs.len() as int, given, k)), ..f },
        KindView::Dict(fs) => FormView { kind: KindView::Dict(all_replaced(fs, fs.len() as int, given, k)), ..f },
        KindView::HashSet(fs) => FormView { kind: KindView::HashSet(all_replaced(fs, fs.len() as int, given, k)), ..f },
        KindView::Quote(x) => FormView { kind: KindView::Quote(Box::new(replaced(*x, given, k))), ..f },
        KindView::SyntaxQuote(x) => FormView { kind: KindView::SyntaxQuote(Box::new(replaced(*x, given, k))), ..f },
        KindView::Unquote(x) => FormView { kind: KindView::Unquote(Box::new(replaced(*x, given, k))), ..f },
        KindView::UnquoteSplice(x) => FormView { kind: KindView::UnquoteSplice(Box::new(replaced(*x, given, k))), ..f },
        KindView::Deref(x) => FormView { kind: KindView::Deref(Box::new(replaced(*x, given, k))), ..f },
        KindView::Var(x) => FormView { kind: KindView::Var(Box::new(replaced(*x, given, k))), ..f },
        KindView::TaggedLiteral(t, x) => FormView { kind: KindView::TaggedLiteral(t, Box::new(replaced(*x, given, k))), ..f },
        KindView::Meta(m, x) => FormView { kind: KindView::Meta(Box::new(replaced(*m, given, k)), Box::new(replaced(*x, given, k + anon_fns(*m).len()))), ..f },
        _ => f,
    }
}

pub open spec fn all_replaced(fs: Seq<FormView>, n: int, given: Seq<FormView>, k: int) -> Seq<FormView>
    decreases fs, n,
{
    if n <= 0 || n > fs.len() {
        Seq::empty()
    } else {
        all_replaced(fs, n - 1, given, k).push(replaced(fs[n - 1], given, k + anon_fns_in(fs, n - 1).len()))
    }
}

/// Copies of the `#(...)` of a form that are not inside another, from left to right.
pub fn outer_anon_fns(f: &Form, out: &mut Vec<Form>)
    ensures
        form::forms_view(final(out)@) == form::forms_view(old(out)@) + anon_fns(form::form_view(*f)),
    decreases f, 0int,
{
    let ghost start = form::forms_view(out@);
    assert(form::form_view(*f).kind == form::kind_view(f.kind));
    match &f.kind {
        FormKind::AnonFn(_) => {
            let x = copy_form(f);
            proof {
                form::forms_view_push(out@, x);
                assert(start.push(form::form_view(x)) =~= start + seq![form::form_view(x)]);
            }
            out.push(x);
        },
        FormKind::List(fs) => outer_in(fs, out),
        FormKind::Vector(fs) => outer_in(fs, out),
        FormKind::Dict(fs) => outer_in(fs, out),
        FormKind::HashSet(fs) => outer_in(fs, out),
        FormKind::Quote(x) => outer_anon_fns(x, out),
        FormKind::SyntaxQuote(x) => outer_anon_fns(x, out),
        FormKind::Unquote(x) => outer_anon_fns(x, out),
        FormKind::UnquoteSplice(x) => outer_anon_fns(x, out),
        FormKind::Deref(x) => outer_anon_fns(x, out),
        FormKind::Var(x) => outer_anon_fns(x, out),
        FormKind::Meta(m, x) => {
            outer_anon_fns(m, out);
            outer_anon_fns(x, out);
            assert(form::forms_view(out@) =~= start + (anon_fns(form::form_view(**m)) + anon_fns(form::form_view(**x))));
        },
        FormKind::TaggedLiteral(_, x) => outer_anon_fns(x, out),
        _ => {
            assert(start + Seq::<FormView>::empty() =~= start);
        },
    }
}

fn outer_in(fs: &Vec<Form>, out: &mut Vec<Form>)
    ensures
        form::forms_view(final(out)@) == form::forms_view(old(out)@) + anon_fns_in(form::forms_view(fs@), form::forms_view(fs@).len() as int),
    decreases fs@, fs@.len(),
{
    let ghost fv = form::forms_view(fs@);
    let ghost start = form::forms_view(out@);
    proof {
        form::forms_view_at(fs@);
        assert(start + anon_fns_in(fv, 0) =~= start);
    }
    let mut i: usize = 0;
    while i < fs.len()
        invariant
            i <= fs@.len(),
            start == form::forms_view(old(out)@),
            fv == form::forms_view(fs@),
            fv.len() == fs@.len(),
            forall|k: int| 0 <= k < fv.len() ==> #[trigger] fv[k] == form::form_view(fs@[k]),
            form::forms_view(out@) == start + anon_fns_in(fv, i as int),
        decreases fs@.len() - i,
    {
        assert(fv[i as int] == form::form_view(fs@[i as int]));
        outer_anon_fns(&fs[i], out);
        assert(form::forms_view(out@) =~= start + (anon_fns_in(fv, i as int) + anon_fns(fv[i as int])));
        i += 1;
    }
}

/// A copy of a form whose outermost `#(...)` are replaced by copies of `given` from `k` on, and the
/// position behind the last that was used.
fn replace_from(f: &Form, given: &Vec<Form>, k: usize) -> (r: (Form, usize))
    requires
        k + anon_fns(form::form_view(*f)).len() <= given@.len(),
    ensures
        form::form_view(r.0) == replaced(form::form_view(*f), form::forms_view(given@), k as int),
        r.1 == k + anon_fns(form::form_view(*f)).len(),
    decreases f, 0int,
{
    assert(form::form_view(*f).kind == form::kind_view(f.kind));
    let span = copy_span(&f.span);
    match &f.kind {
        FormKind::AnonFn(_) => {
            proof {
                form::forms_view_at(given@);
            }
            let n: usize = given.len();
            assert(k < n);
            (copy_form(&given[k]), k + 1)
        },
        FormKind::List(fs) => {
            let (xs, n) = replace_in(fs, given, k);
            let r = Form { kind: FormKind::List(xs), span };
            assert(form::form_view(r).kind == form::kind_view(r.kind));
            (r, n)
        },
        FormKind::Vector(fs) => {
            let (xs, n) = replace_in(fs, given, k);
            let r = Form { kind: FormKind::Vector(xs), span };
            assert(form::form_view(r).kind == form::kind_view(r.kind));
            (r, n)
        },
        FormKind::Dict(fs) => {
            let (xs, n) = replace_in(fs, given, k);
            let r = Form { kind: FormKind::Dict(xs), span };
            assert(form::form_view(r).kind == form::kind_view(r.kind));
            (r, n)
        },
        FormKind::HashSet(fs) => {
            let (xs, n) = replace_in(fs, given, k);
            let r = Form { kind: FormKind::HashSet(xs), span };
            assert(form::form_view(r).kind == form::kind_view(r.kind));
            (r, n)
        },
        FormKind::Quote(x) => {
            let (y, n) = replace_from(x, given, k);
            let r = Form { kind: FormKind::Quote(Box::new(y)), span };
            assert(form::form_view(r).kind == form::kind_view(r.kind));
            (r, n)
        },
        FormKind::SyntaxQuote(x) => {
            let (y, n) = replace_from(x, given, k);
            let r = Form { kind: FormKind::SyntaxQuote(Box::new(y)), span };
            assert(form::form_view(r).kind == form::kind_view(r.kind));
            (r, n)
        },
        FormKind::Unquote(x) => {
            let (y, n) = replace_from(x, given, k);
            let r = Form { kind: FormKind::Unquote(Box::new(y)), span };
            assert(form::form_view(r).kind == form::kind_view(r.kind));
            (r, n)
        },
        FormKind::UnquoteSplice(x) => {
            let (y, n) = replace_from(x, given, k);
            let r = Form { kind: FormKind::UnquoteSplice(Box::new(y)), span };
            assert(form::form_view(r).kind == form::kind_view(r.kind));
            (r, n)
        },
        FormKind::Deref(x) => {
            let (y, n) = replace_from(x, given, k);
            let r = Form { kind: FormKind::Deref(Box::new(y)), span };
            assert(form::form_view(r).kind == form::kind_view(r.kind));
            (r, n)
        },
        FormKind::Var(x) => {
            let (y, n) = replace_from(x, given, k);
            let r = Form { kind: FormKind::Var(Box::new(y)), span };
            assert(form::form_view(r).kind == form::kind_view(r.kind));
            (r, n)
        },
        FormKind::Meta(m, x) => {
            let (a, n) = replace_from(m, given, k);
            let (b, n2) = replace_from(x, given, n);
            let r = Form { kind: FormKind::Meta(Box::new(a), Box::new(b)), span };
            assert(form::form_view(r).kind == form::kind_view(r.kind));
            (r, n2)
        },
        FormKind::TaggedLiteral(t, x) => {
            let (y, n) = replace_from(x, given, k);
            let r = Form { kind: FormKind::TaggedLiteral(t.clone(), Box::new(y)), span };
            assert(form::form_view(r).kind == form::kind_view(r.kind));
            (r, n)
        },
        _ => (copy_form(f), k),
    }
}

fn replace_in(fs: &Vec<Form>, given: &Vec<Form>, k: usize) -> (r: (Vec<Form>, usize))
    requires
        k + anon_fns_in(form::forms_view(fs@), form::forms_view(fs@).len() as int).len() <= given@.len(),
    ensures
        form::forms_view(r.0@) == all_replaced(form::forms_view(fs@), form::forms_view(fs@).len() as int, form::forms_view(given@), k as int),
        r.1 == k + anon_fns_in(form::forms_view(fs@), form::forms_view(fs@).len() as int).len(),
    decreases fs@, fs@.len(),
{
    let ghost fv = form::forms_view(fs@);
    let ghost gv = form::forms_view(given@);
    proof {
        form::forms_view_at(fs@);
    }
    let mut out: Vec<Form> = Vec::new();
    let mut at: usize = k;
    let mut i: usize = 0;
    while i < fs.len()
        invariant
            i <= fs@.len(),
            fv == form::forms_view(fs@),
            gv == form::forms_view(given@),
            fv.len() == fs@.len(),
            forall|j: int| 0 <= j < fv.len() ==> #[trigger] fv[j] == form::form_view(fs@[j]),
            k + anon_fns_in(fv, fs@.len() as int).len() <= given@.len(),
            at == k + anon_fns_in(fv, i as int).len(),
            form::forms_view(out@) == all_replaced(fv, i as int, gv, k as int),
        decreases fs@.len() - i,
    {
        proof {
            assert(fv[i as int] == form::form_view(fs@[i as int]));
            anon_fns_grow(fv, i + 1, fs@.len() as int);
        }
        let (x, n) = replace_from(&fs[i], given, at);
        proof {
            form::forms_view_push(out@, x);
        }
        out.push(x);
        at = n;
        i += 1;
    }
    (out, at)
}

proof fn anon_fns_grow(fs: Seq<FormView>, a: int, b: int)
    requires
        a <= b <= fs.len(),
    ensures
        anon_fns_in(fs, a).len() <= anon_fns_in(fs, b).len(),
    decreases b - a,
{
    if a < b {
        anon_fns_grow(fs, a, b - 1);
    }
}

/// A copy of a form whose outermost `#(...)` are replaced, one after the other, by copies of
/// `given`.
pub fn replace_anon_fns(f: &Form, given: &Vec<Form>) -> (r: Form)
    requires
        anon_fns(form::form_view(*f)).len() <= given@.len(),
    ensures
        form::form_view(r) == replaced(form::form_view(*f), form::forms_view(given@), 0),
{
    let (x, _) = replace_from(f, given, 0);
    x
}

/// A form stays as it is where each of its `#(...)` is replaced by itself.
pub proof fn replacing_by_the_same_changes_nothing(f: FormView, before: Seq<FormView>, after: Seq<FormView>)
    ensures
        replaced(f, before + anon_fns(f) + after, before.len() as int) == f,
    decreases f, 0int,
{
    let all = before + anon_fns(f) + after;
    let k = before.len() as int;
    match f.kind {
        KindView::AnonFn(_) => {
            assert(all[k] == f);
        },
        KindView::List(fs) => {
            all_stay(fs, fs.len() as int, before, after);
            assert(all_replaced(fs, fs.len() as int, all, k) =~= fs);
        },
        KindView::Vector(fs) => {
            all_stay(fs, fs.len() as int, before, after);
            assert(all_replaced(fs, fs.len() as int, all, k) =~= fs);
        },
        KindView::Dict(fs) => {
            all_stay(fs, fs.len() as int, before, after);
            assert(all_replaced(fs, fs.len() as int, all, k) =~= fs);
        },
        KindView::HashSet(fs) => {
            all_stay(fs, fs.len() as int, before, after);
            assert(all_replaced(fs, fs.len() as int, all, k) =~= fs);
        },
        KindView::Quote(x) => replacing_by_the_same_changes_nothing(*x, before, after),
        KindView::SyntaxQuote(x) => replacing_by_the_same_changes_nothing(*x, before, after),
        KindView::Unquote(x) => replacing_by_the_same_changes_nothing(*x, before, after),
        KindView::UnquoteSplice(x) => replacing_by_the_same_changes_nothing(*x, before, after),
        KindView::Deref(x) => replacing_by_the_same_changes_nothing(*x, before, after),
        KindView::Var(x) => replacing_by_the_same_changes_nothing(*x, before, after),
        KindView::Meta(m, x) => {
            let a = anon_fns(*m);
            let b = anon_fns(*x);
            replacing_by_the_same_changes_nothing(*m, before, b + after);
            assert(before + a + (b + after) =~= all);
            replacing_by_the_same_changes_nothing(*x, before + a, after);
            assert((before + a) + b + after =~= all);
        },
        KindView::TaggedLiteral(_, x) => replacing_by_the_same_changes_nothing(*x, before, after),
        _ => {},
    }
}

proof fn all_stay(fs: Seq<FormView>, n: int, before: Seq<FormView>, after: Seq<FormView>)
    requires
        0 <= n <= fs.len(),
    ensures
        all_replaced(fs, n, before + anon_fns_in(fs, n) + after, before.len() as int) == fs.take(n),
    decreases fs, n,
{
    let all = before + anon_fns_in(fs, n) + after;
    if n > 0 {
        let a = anon_fns_in(fs, n - 1);
        let b = anon_fns(fs[n - 1]);
        all_stay(fs, n - 1, before, b + after);
        assert(before + a + (b + after) =~= all);
        replacing_by_the_same_changes_nothing(fs[n - 1], before + a, after);
        assert((before + a) + b + after =~= all);
        assert(fs.take(n) =~= fs.take(n - 1).push(fs[n - 1]));
    } else {
        assert(fs.take(0) =~= Seq::empty());
    }
}

/// Without aliases a form stays as it is.
pub proof fn no_aliases_no_change(f: FormView)
    ensures
        qualified(f, Seq::empty()) == f,
    decreases f, 0int,
{
    match f.kind {
        KindView::List(fs) => {
            all_unaliased(fs, fs.len() as int);
            assert(fs.take(fs.len() as int) =~= fs);
        },
        KindView::Vector(fs) => {
            all_unaliased(fs, fs.len() as int);
            assert(fs.take(fs.len() as int) =~= fs);
        },
        KindView::Dict(fs) => {
            all_unaliased(fs, fs.len() as int);
            assert(fs.take(fs.len() as int) =~= fs);
        },
        KindView::HashSet(fs) => {
            all_unaliased(fs, fs.len() as int);
            assert(fs.take(fs.len() as int) =~= fs);
        },
        KindView::AnonFn(fs) => {
            all_unaliased(fs, fs.len() as int);
            assert(fs.take(fs.len() as int) =~= fs);
        },
        KindView::SyntaxQuote(x) => no_aliases_no_change(*x),
        KindView::Unquote(x) => no_aliases_no_change(*x),
        KindView::UnquoteSplice(x) => no_aliases_no_change(*x),
        KindView::Deref(x) => no_aliases_no_change(*x),
        KindView::Var(x) => no_aliases_no_change(*x),
        KindView::Meta(m, x) => {
            no_aliases_no_change(*m);
            no_aliases_no_change(*x);
        },
        KindView::TaggedLiteral(_, x) => no_aliases_no_change(*x),
        _ => {},
    }
}

proof fn all_unaliased(fs: Seq<FormView>, n: int)
    requires
        0 <= n <= fs.len(),
    ensures
        all_qualified(fs, n, Seq::empty()) == fs.take(n),
    decreases fs, n,
{
    if n > 0 {
        all_unaliased(fs, n - 1);
        no_aliases_no_change(fs[n - 1]);
        assert(fs.take(n) =~= fs.take(n - 1).push(fs[n - 1]));
    } else {
        assert(fs.take(0) =~= Seq::empty());
    }
}

/// Quoted data keeps its aliases, in either notation.
pub proof fn quoted_data_stays(f: FormView, aliases: Seq<(Seq<char>, Seq<char>)>)
    requires
        f.kind is Quote || (f.kind is List && is_quoting(f.kind->List_0)),
    ensures
        qualified(f, aliases) == f,
{
}

/// That no reader conditional is left in a form.
pub open spec fn is_plain(f: FormView) -> bool
    decreases f, 0int,
{
    match f.kind {
        KindView::List(fs) => all_plain(fs, fs.len() as int),
        KindView::Vector(fs) => all_plain(fs, fs.len() as int),
        KindView::Dict(fs) => all_plain(fs, fs.len() as int),
        KindView::HashSet(fs) => all_plain(fs, fs.len() as int),
        KindView::AnonFn(fs) => all_plain(fs, fs.len() as int),
        KindView::Quote(x) => is_plain(*x),
        KindView::SyntaxQuote(x) => is_plain(*x),
        KindView::Unquote(x) => is_plain(*x),
        KindView::UnquoteSplice(x) => is_plain(*x),
        KindView::Deref(x) => is_plain(*x),
        KindView::Var(x) => is_plain(*x),
        KindView::Meta(m, x) => is_plain(*m) && is_plain(*x),
        KindView::TaggedLiteral(_, x) => is_plain(*x),
        KindView::ReaderCond(_, _, _, _) => false,
        _ => true,
    }
}

pub open spec fn all_plain(fs: Seq<FormView>, n: int) -> bool
    decreases fs, n,
{
    n <= 0 || n > fs.len() || (all_plain(fs, n - 1) && is_plain(fs[n - 1]))
}

proof fn plain_together(a: Seq<FormView>, b: Seq<FormView>, n: int)
    requires
        0 <= n <= b.len(),
        all_plain(a, a.len() as int),
        all_plain(b, n),
    ensures
        all_plain(a + b, a.len() + n),
    decreases n,
{
    if n > 0 {
        plain_together(a, b, n - 1);
    } else {
        plain_prefix(a, a + b, a.len() as int);
    }
}

proof fn plain_prefix(a: Seq<FormView>, b: Seq<FormView>, n: int)
    requires
        0 <= n <= a.len(),
        n <= b.len(),
        forall|i: int| 0 <= i < n ==> a[i] == b[i],
        all_plain(a, n),
    ensures
        all_plain(b, n),
    decreases n,
{
    if n > 0 {
        plain_prefix(a, b, n - 1);
    }
}

/// Resolving the reader conditionals of a form leaves none.
pub proof fn no_conditionals_are_left(f: FormView)
    ensures
        is_plain(unconditional(f)),
    decreases f, 0int,
{
    match f.kind {
        KindView::List(fs) => none_are_left(fs, fs.len() as int),
        KindView::Vector(fs) => none_are_left(fs, fs.len() as int),
        KindView::Dict(fs) => none_are_left(fs, fs.len() as int),
        KindView::HashSet(fs) => none_are_left(fs, fs.len() as int),
        KindView::AnonFn(fs) => none_are_left(fs, fs.len() as int),
        KindView::Quote(x) => no_conditionals_are_left(*x),
        KindView::SyntaxQuote(x) => no_conditionals_are_left(*x),
        KindView::Unquote(x) => no_conditionals_are_left(*x),
        KindView::UnquoteSplice(x) => no_conditionals_are_left(*x),
        KindView::Deref(x) => no_conditionals_are_left(*x),
        KindView::Var(x) => no_conditionals_are_left(*x),
        KindView::Meta(m, x) => {
            no_conditionals_are_left(*m);
            no_conditionals_are_left(*x);
        },
        KindView::TaggedLiteral(_, x) => no_conditionals_are_left(*x),
        KindView::ReaderCond(splicing, clauses, branch, _) => {
            if !splicing && branch is Some && branch->0 < clauses.len() {
                no_conditionals_are_left(clauses[branch->0 as int]);
            }
        },
        _ => {},
    }
}

proof fn none_are_left(fs: Seq<FormView>, n: int)
    requires
        0 <= n <= fs.len(),
    ensures
        all_plain(all_unconditional(fs, n), all_unconditional(fs, n).len() as int),
    decreases fs, n,
{
    if n > 0 {
        none_are_left(fs, n - 1);
        let rest = all_unconditional(fs, n - 1);
        match fs[n - 1].kind {
            KindView::ReaderCond(_, _, _, items) => {
                each_is_plain(items, items.len() as int);
                plain_together(rest, each_unconditional(items, items.len() as int), items.len() as int);
            },
            _ => {
                no_conditionals_are_left(fs[n - 1]);
                plain_prefix(rest, rest.push(unconditional(fs[n - 1])), rest.len() as int);
            },
        }
    }
}

proof fn each_is_plain(fs: Seq<FormView>, n: int)
    requires
        0 <= n <= fs.len(),
    ensures
        each_unconditional(fs, n).len() == n,
        all_plain(each_unconditional(fs, n), n),
    decreases fs, n,
{
    if n > 0 {
        each_is_plain(fs, n - 1);
        no_conditionals_are_left(fs[n - 1]);
        let rest = each_unconditional(fs, n - 1);
        plain_prefix(rest, rest.push(unconditional(fs[n - 1])), n - 1);
    }
}

/// A form without reader conditionals stays as it is.
pub proof fn a_plain_form_stays(f: FormView)
    requires
        is_plain(f),
    ensures
        unconditional(f) == f,
    decreases f, 0int,
{
    match f.kind {
        KindView::List(fs) => {
            plain_forms_stay(fs, fs.len() as int);
            assert(fs.take(fs.len() as int) =~= fs);
        },
        KindView::Vector(fs) => {
            plain_forms_stay(fs, fs.len() as int);
            assert(fs.take(fs.len() as int) =~= fs);
        },
        KindView::Dict(fs) => {
            plain_forms_stay(fs, fs.len() as int);
            assert(fs.take(fs.len() as int) =~= fs);
        },
        KindView::HashSet(fs) => {
            plain_forms_stay(fs, fs.len() as int);
            assert(fs.take(fs.len() as int) =~= fs);
        },
        KindView::AnonFn(fs) => {
            plain_forms_stay(fs, fs.len() as int);
            assert(fs.take(fs.len() as int) =~= fs);
        },
        KindView::Quote(x) => a_plain_form_stays(*x),
        KindView::SyntaxQuote(x) => a_plain_form_stays(*x),
        KindView::Unquote(x) => a_plain_form_stays(*x),
        KindView::UnquoteSplice(x) => a_plain_form_stays(*x),
        KindView::Deref(x) => a_plain_form_stays(*x),
        KindView::Var(x) => a_plain_form_stays(*x),
        KindView::Meta(m, x) => {
            a_plain_form_stays(*m);
            a_plain_form_stays(*x);
        },
        KindView::TaggedLiteral(_, x) => a_plain_form_stays(*x),
        _ => {},
    }
}

proof fn plain_forms_stay(fs: Seq<FormView>, n: int)
    requires
        0 <= n <= fs.len(),
        all_plain(fs, n),
    ensures
        all_unconditional(fs, n) == fs.take(n),
    decreases fs, n,
{
    if n > 0 {
        plain_forms_stay(fs, n - 1);
        a_plain_form_stays(fs[n - 1]);
        assert(fs.take(n) =~= fs.take(n - 1).push(fs[n - 1]));
    } else {
        assert(fs.take(0) =~= Seq::empty());
    }
}

} // verus!
