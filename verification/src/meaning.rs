//! What forms mean, and what blocks of instructions do: an evaluator of the one, and a machine for
//! the other, over whatever constants, truth and acts a language has.
use crate::anf;
use crate::form;
use crate::form::{Form, FormKind};
use crate::ir::{BlockId, BlockView, ConstView, InstView, KnownFn, TemplateView, TermView, VarId};
use crate::text;
use vstd::prelude::*;

verus! {

/// What is asked of a language, with the values that it is asked of.
pub enum Act {
    Global(Seq<char>, Seq<char>),
    Vector(Seq<int>),
    List(Seq<int>),
    HashSet(Seq<int>),
    Dict(Seq<(int, int)>),
    /// A closure, with what it captures by name.
    Closure(TemplateView, Map<Seq<char>, int>),
    Known(KnownFn, Seq<int>),
    Call(int, Seq<int>),
    Deref(int),
    Define(Seq<char>, Seq<char>, int),
    Assign(int, int),
}

/// What comes of an act: a value or an exception, and the world then; or it never ends.
pub enum Reply {
    Gives(int, int),
    Throws(int, int),
    Never,
}

/// A language: what its constants are, which values are true, and what its acts do to a world.
pub struct Lang {
    pub constant: spec_fn(ConstView) -> int,
    pub truthy: spec_fn(int) -> bool,
    pub act: spec_fn(Act, int) -> Reply,
}

/// Names and what they stand for, scope by scope, outermost first.
pub type Env = Seq<Map<Seq<char>, int>>;

/// What comes of evaluating: a result and the world then, new values for the variables of the loop
/// around, an exception, or nothing that can be told.
pub enum Outcome<T> {
    Done(T, int),
    Recur(Seq<int>, int),
    Thrown(int, int),
    Stuck,
}

/// An outcome without a result, for something else.
pub open spec fn left<T, U>(o: Outcome<T>) -> Outcome<U> {
    match o {
        Outcome::Done(_, _) => Outcome::Stuck,
        Outcome::Recur(vs, w) => Outcome::Recur(vs, w),
        Outcome::Thrown(v, w) => Outcome::Thrown(v, w),
        Outcome::Stuck => Outcome::Stuck,
    }
}

/// What comes of an act.
pub open spec fn performed(l: Lang, a: Act, w: int) -> Outcome<int> {
    match (l.act)(a, w) {
        Reply::Gives(v, w1) => Outcome::Done(v, w1),
        Reply::Throws(v, w1) => Outcome::Thrown(v, w1),
        Reply::Never => Outcome::Stuck,
    }
}

/// What a name stands for in the innermost of the first `n` scopes that has it.
pub open spec fn seen(env: Env, name: Seq<char>, n: int) -> Option<int>
    decreases n,
{
    if n <= 0 || n > env.len() {
        None
    } else if env[n - 1].dom().contains(name) {
        Some(env[n - 1][name])
    } else {
        seen(env, name, n - 1)
    }
}

/// What a name stands for in the outermost scope from `i` on that has it.
pub open spec fn outermost(env: Env, name: Seq<char>, i: int) -> Option<int>
    decreases env.len() - i,
{
    if i < 0 || i >= env.len() {
        None
    } else if env[i].dom().contains(name) {
        Some(env[i][name])
    } else {
        outermost(env, name, i + 1)
    }
}

/// What a closure captures: every name, as the outermost scope has it.
pub open spec fn captured(env: Env) -> Map<Seq<char>, int> {
    Map::new(|n: Seq<char>| outermost(env, n, 0) is Some, |n: Seq<char>| outermost(env, n, 0)->Some_0)
}

/// The first `n` names with their values; a later one takes the place of an earlier.
pub open spec fn bound(names: Seq<Seq<char>>, vals: Seq<int>, n: int) -> Map<Seq<char>, int>
    decreases n,
{
    if n <= 0 { Map::empty() } else { bound(names, vals, n - 1).insert(names[n - 1], vals[n - 1]) }
}

/// Values in turn, as pairs.
pub open spec fn in_pairs(vs: Seq<int>) -> Seq<(int, int)> {
    Seq::new(vs.len() / 2, |i: int| (vs[2 * i], vs[2 * i + 1]))
}

/// A closure of a name and a source.
pub open spec fn closure(l: Lang, env: Env, name: Option<Seq<char>>, fs: Seq<Form>, from: int, w: int) -> Outcome<int> {
    let t = TemplateView {
        name,
        arity_fn_names: Seq::empty(),
        param_counts: Seq::empty(),
        is_variadic: Seq::empty(),
        capture_names: Seq::empty(),
        body_forms: form::forms_view(fs.subrange(from, fs.len() as int)),
    };
    performed(l, Act::Closure(t, captured(env)), w)
}

/// The constant that a literal is.
pub open spec fn constant_of(k: FormKind) -> Option<ConstView> {
    match k {
        FormKind::Nil => Some(ConstView::Nil),
        FormKind::Bool(b) => Some(ConstView::Bool(b)),
        FormKind::Int(n) => Some(ConstView::Long(n)),
        FormKind::Float(d) => Some(ConstView::Double(d)),
        FormKind::Symbolic(d) => Some(ConstView::Double(d)),
        FormKind::Str(t) => Some(ConstView::Str(t@)),
        FormKind::Char(c) => Some(ConstView::Char(c)),
        FormKind::Keyword(t) => Some(ConstView::Keyword(t@)),
        _ => None,
    }
}

/// What a quoted form is.
pub open spec fn quoted(l: Lang, f: Form, w: int) -> Outcome<int>
    decreases f, 0int,
{
    match constant_of(f.kind) {
        Some(c) => Outcome::Done((l.constant)(c), w),
        None => match f.kind {
            FormKind::Symbol(t) => Outcome::Done((l.constant)(ConstView::Symbol(t@)), w),
            FormKind::Vector(fs) => match all_quoted(l, fs@, 0, Seq::empty(), w) {
                Outcome::Done(vs, w1) => performed(l, Act::Vector(vs), w1),
                o => left(o),
            },
            FormKind::List(fs) => match all_quoted(l, fs@, 0, Seq::empty(), w) {
                Outcome::Done(vs, w1) => performed(l, Act::List(vs), w1),
                o => left(o),
            },
            FormKind::HashSet(fs) => match all_quoted(l, fs@, 0, Seq::empty(), w) {
                Outcome::Done(vs, w1) => performed(l, Act::HashSet(vs), w1),
                o => left(o),
            },
            FormKind::Dict(fs) => match all_quoted(l, fs@, 0, Seq::empty(), w) {
                Outcome::Done(vs, w1) => performed(l, Act::Dict(in_pairs(vs)), w1),
                o => left(o),
            },
            _ => Outcome::Stuck,
        },
    }
}

/// What the quoted forms from `i` on are, behind `done`.
pub open spec fn all_quoted(l: Lang, fs: Seq<Form>, i: int, done: Seq<int>, w: int) -> Outcome<Seq<int>>
    decreases fs, fs.len() - i,
{
    if i < 0 || i >= fs.len() {
        Outcome::Done(done, w)
    } else {
        match quoted(l, fs[i], w) {
            Outcome::Done(v, w1) => all_quoted(l, fs, i + 1, done.push(v), w1),
            o => left(o),
        }
    }
}

/// What a form evaluates to.  Each time that a loop goes back takes one of `fuel`.
pub open spec fn eval(l: Lang, ns: Seq<char>, env: Env, f: Form, w: int, fuel: nat) -> Outcome<int>
    decreases fuel, f, 0int, 0int,
{
    match constant_of(f.kind) {
        Some(c) => Outcome::Done((l.constant)(c), w),
        None => match f.kind {
            FormKind::Symbol(t) => match seen(env, t@, env.len() as int) {
                Some(v) => Outcome::Done(v, w),
                None => match text::before_last(t@, '/') {
                    Some(of) => performed(l, Act::Global(of, text::after_last(t@, '/')), w),
                    None => performed(l, Act::Global(ns, t@), w),
                },
            },
            FormKind::Vector(fs) => match eval_all(l, ns, env, fs@, 0, Seq::empty(), w, fuel) {
                Outcome::Done(vs, w1) => performed(l, Act::Vector(vs), w1),
                o => left(o),
            },
            FormKind::Dict(fs) => match eval_all(l, ns, env, fs@, 0, Seq::empty(), w, fuel) {
                Outcome::Done(vs, w1) => performed(l, Act::Dict(in_pairs(vs)), w1),
                o => left(o),
            },
            FormKind::HashSet(fs) => match eval_all(l, ns, env, fs@, 0, Seq::empty(), w, fuel) {
                Outcome::Done(vs, w1) => performed(l, Act::HashSet(vs), w1),
                o => left(o),
            },
            FormKind::List(fs) => if fs@.len() == 0 { performed(l, Act::List(Seq::empty()), w) } else { eval_list(l, ns, env, fs@, w, fuel) },
            FormKind::Quote(inner) => quoted(l, *inner, w),
            FormKind::Deref(inner) => match eval(l, ns, env, *inner, w, fuel) {
                Outcome::Done(v, w1) => performed(l, Act::Deref(v), w1),
                o => o,
            },
            FormKind::Meta(_, inner) => eval(l, ns, env, *inner, w, fuel),
            _ => Outcome::Stuck,
        },
    }
}

/// What the forms from `i` on evaluate to, behind `done`.
pub open spec fn eval_all(l: Lang, ns: Seq<char>, env: Env, fs: Seq<Form>, i: int, done: Seq<int>, w: int, fuel: nat) -> Outcome<Seq<int>>
    decreases fuel, fs, fs.len() - i, 0int,
{
    if i < 0 || i >= fs.len() {
        Outcome::Done(done, w)
    } else {
        match eval(l, ns, env, fs[i], w, fuel) {
            Outcome::Done(v, w1) => eval_all(l, ns, env, fs, i + 1, done.push(v), w1, fuel),
            o => left(o),
        }
    }
}

/// What the last of the forms from `i` on evaluates to, all of them evaluated in turn; nil where there
/// is none.
pub open spec fn eval_body(l: Lang, ns: Seq<char>, env: Env, fs: Seq<Form>, i: int, w: int, fuel: nat) -> Outcome<int>
    decreases fuel, fs, fs.len() - i, 1int,
{
    if i < 0 || i >= fs.len() {
        Outcome::Done((l.constant)(ConstView::Nil), w)
    } else if i + 1 == fs.len() {
        eval(l, ns, env, fs[i], w, fuel)
    } else {
        match eval(l, ns, env, fs[i], w, fuel) {
            Outcome::Done(_, w1) => eval_body(l, ns, env, fs, i + 1, w1, fuel),
            o => o,
        }
    }
}

/// What the form at `i` evaluates to, and nil where there is none.
pub open spec fn eval_or_nil(l: Lang, ns: Seq<char>, env: Env, fs: Seq<Form>, i: int, w: int, fuel: nat) -> Outcome<int>
    decreases fuel, fs, 0int, 0int,
{
    if 0 <= i < fs.len() { eval(l, ns, env, fs[i], w, fuel) } else { Outcome::Done((l.constant)(ConstView::Nil), w) }
}

/// What a list evaluates to: a special form, or else a call.
pub open spec fn eval_list(l: Lang, ns: Seq<char>, env: Env, fs: Seq<Form>, w: int, fuel: nat) -> Outcome<int>
    decreases fuel, fs, fs.len() as int, 2int,
{
    if fs.len() == 0 {
        Outcome::Stuck
    } else {
        match fs[0].kind {
            FormKind::Symbol(name) => {
                let t = name@;
                if t == "if"@ {
                    eval_if(l, ns, env, fs, w, fuel)
                } else if t == "do"@ {
                    eval_body(l, ns, env, fs, 1, w, fuel)
                } else if t == "let"@ || t == "let*"@ {
                    eval_let(l, ns, env, fs, w, fuel)
                } else if t == "loop"@ || t == "loop*"@ {
                    eval_loop(l, ns, env, fs, w, fuel)
                } else if t == "recur"@ {
                    match eval_all(l, ns, env, fs, 1, Seq::empty(), w, fuel) {
                        Outcome::Done(vs, w1) => Outcome::Recur(vs, w1),
                        o => left(o),
                    }
                } else if t == "def"@ {
                    eval_def(l, ns, env, fs, w, fuel)
                } else if t == "fn"@ || t == "fn*"@ {
                    if fs.len() < 2 {
                        Outcome::Stuck
                    } else {
                        match fs[1].kind {
                            FormKind::Symbol(own) => closure(l, env, Some(own@), fs, 2, w),
                            _ => closure(l, env, None, fs, 1, w),
                        }
                    }
                } else if t == "quote"@ {
                    if fs.len() != 2 { Outcome::Stuck } else { quoted(l, fs[1], w) }
                } else if t == "throw"@ {
                    if fs.len() != 2 {
                        Outcome::Stuck
                    } else {
                        match eval(l, ns, env, fs[1], w, fuel) {
                            Outcome::Done(v, w1) => Outcome::Thrown(v, w1),
                            o => o,
                        }
                    }
                } else if t == "set!"@ {
                    eval_set(l, ns, env, fs, w, fuel)
                } else if anf::is_module_level(t) || anf::is_not_lowered(t) {
                    Outcome::Stuck
                } else if t == "defn"@ {
                    eval_defn(l, ns, env, fs, w)
                } else if t == "defmacro"@ || t == "defonce"@ {
                    Outcome::Stuck
                } else if t == "and"@ {
                    eval_and(l, ns, env, fs, 1, w, fuel)
                } else if t == "or"@ {
                    eval_or(l, ns, env, fs, 1, w, fuel)
                } else {
                    eval_call(l, ns, env, fs, w, fuel)
                }
            },
            _ => eval_call(l, ns, env, fs, w, fuel),
        }
    }
}

/// A call: of a known function, or of what the head evaluates to; the arguments in turn.
pub open spec fn eval_call(l: Lang, ns: Seq<char>, env: Env, fs: Seq<Form>, w: int, fuel: nat) -> Outcome<int>
    decreases fuel, fs, fs.len() as int, 1int,
{
    if fs.len() == 0 {
        Outcome::Stuck
    } else {
        let known = match fs[0].kind {
            FormKind::Symbol(name) => anf::known_fn(name@),
            _ => None,
        };
        match known {
            Some(kf) => match eval_all(l, ns, env, fs, 1, Seq::empty(), w, fuel) {
                Outcome::Done(vs, w1) => performed(l, Act::Known(kf, vs), w1),
                o => left(o),
            },
            None => match eval(l, ns, env, fs[0], w, fuel) {
                Outcome::Done(f, w1) => match eval_all(l, ns, env, fs, 1, Seq::empty(), w1, fuel) {
                    Outcome::Done(vs, w2) => performed(l, Act::Call(f, vs), w2),
                    o => left(o),
                },
                o => o,
            },
        }
    }
}

/// `if`: where the test is true the second argument, and the third otherwise; nil where the one that
/// counts is missing.
pub open spec fn eval_if(l: Lang, ns: Seq<char>, env: Env, fs: Seq<Form>, w: int, fuel: nat) -> Outcome<int>
    decreases fuel, fs, fs.len() as int, 1int,
{
    if fs.len() < 2 {
        Outcome::Stuck
    } else {
        match eval(l, ns, env, fs[1], w, fuel) {
            Outcome::Done(test, w1) => if (l.truthy)(test) { eval_or_nil(l, ns, env, fs, 2, w1, fuel) } else { eval_or_nil(l, ns, env, fs, 3, w1, fuel) },
            o => o,
        }
    }
}

/// The names with the bindings from `i` on, each made where the ones before it can be seen.
pub open spec fn eval_bindings(l: Lang, ns: Seq<char>, env: Env, bs: Seq<Form>, i: int, w: int, fuel: nat) -> Outcome<Env>
    decreases fuel, bs, bs.len() - i, 0int,
{
    if i < 0 || i + 1 >= bs.len() {
        Outcome::Done(env, w)
    } else {
        match bs[i].kind {
            FormKind::Symbol(name) => match eval(l, ns, env, bs[i + 1], w, fuel) {
                Outcome::Done(v, w1) => eval_bindings(l, ns, env.drop_last().push(env.last().insert(name@, v)), bs, i + 2, w1, fuel),
                o => left(o),
            },
            _ => Outcome::Stuck,
        }
    }
}

/// `let`: the body, where the bindings can be seen.
pub open spec fn eval_let(l: Lang, ns: Seq<char>, env: Env, fs: Seq<Form>, w: int, fuel: nat) -> Outcome<int>
    decreases fuel, fs, fs.len() as int, 1int,
{
    if fs.len() < 2 {
        Outcome::Stuck
    } else {
        match fs[1].kind {
            FormKind::Vector(bs) => match eval_bindings(l, ns, env.push(Map::empty()), bs@, 0, w, fuel) {
                Outcome::Done(within, w1) => eval_body(l, ns, within, fs, 2, w1, fuel),
                o => left(o),
            },
            _ => Outcome::Stuck,
        }
    }
}

/// The names of a loop from `i` on and what they start from, behind those in hand.
pub open spec fn eval_inits(l: Lang, ns: Seq<char>, env: Env, bs: Seq<Form>, i: int, names: Seq<Seq<char>>, vals: Seq<int>, w: int, fuel: nat) -> Outcome<(Seq<Seq<char>>, Seq<int>)>
    decreases fuel, bs, bs.len() - i, 0int,
{
    if i < 0 || i + 1 >= bs.len() {
        Outcome::Done((names, vals), w)
    } else {
        match bs[i].kind {
            FormKind::Symbol(name) => match eval(l, ns, env, bs[i + 1], w, fuel) {
                Outcome::Done(v, w1) => eval_inits(l, ns, env, bs, i + 2, names.push(name@), vals.push(v), w1, fuel),
                o => left(o),
            },
            _ => Outcome::Stuck,
        }
    }
}

/// `loop`: the body, where its names stand for what they start from.
pub open spec fn eval_loop(l: Lang, ns: Seq<char>, env: Env, fs: Seq<Form>, w: int, fuel: nat) -> Outcome<int>
    decreases fuel, fs, fs.len() as int, 1int,
{
    if fs.len() < 2 {
        Outcome::Stuck
    } else {
        match fs[1].kind {
            FormKind::Vector(bs) => match eval_inits(l, ns, env, bs@, 0, Seq::empty(), Seq::empty(), w, fuel) {
                Outcome::Done((names, vals), w1) => eval_round(l, ns, env, fs, names, vals, w1, fuel),
                o => left(o),
            },
            _ => Outcome::Stuck,
        }
    }
}

/// A round of a loop: where its body asks for another, that one, with the names standing for the new
/// values.
pub open spec fn eval_round(l: Lang, ns: Seq<char>, env: Env, fs: Seq<Form>, names: Seq<Seq<char>>, vals: Seq<int>, w: int, fuel: nat) -> Outcome<int>
    decreases fuel, fs, fs.len() as int, 0int,
{
    if fs.len() < 2 {
        Outcome::Stuck
    } else {
        match eval_body(l, ns, env.push(bound(names, vals, names.len() as int)), fs, 2, w, fuel) {
            Outcome::Recur(next, w1) => if next.len() != names.len() || fuel == 0 {
                Outcome::Stuck
            } else {
                eval_round(l, ns, env, fs, names, next, w1, (fuel - 1) as nat)
            },
            o => o,
        }
    }
}

/// `def`: the name is defined in the namespace as what the value evaluates to.
pub open spec fn eval_def(l: Lang, ns: Seq<char>, env: Env, fs: Seq<Form>, w: int, fuel: nat) -> Outcome<int>
    decreases fuel, fs, fs.len() as int, 1int,
{
    if fs.len() < 2 {
        Outcome::Stuck
    } else {
        let name = match fs[1].kind {
            FormKind::Symbol(t) => Some(t@),
            FormKind::Meta(_, inner) => match inner.kind {
                FormKind::Symbol(t) => Some(t@),
                _ => None,
            },
            _ => None,
        };
        match name {
            None => Outcome::Stuck,
            Some(t) => match eval_or_nil(l, ns, env, fs, 2, w, fuel) {
                Outcome::Done(v, w1) => performed(l, Act::Define(ns, t, v), w1),
                o => o,
            },
        }
    }
}

/// `defn`: the name is defined in the namespace as a closure; a text in front of its source is not
/// part of that.
pub open spec fn eval_defn(l: Lang, ns: Seq<char>, env: Env, fs: Seq<Form>, w: int) -> Outcome<int> {
    if fs.len() < 2 {
        Outcome::Stuck
    } else {
        match fs[1].kind {
            FormKind::Symbol(name) => match closure(l, env, Some(name@), fs, if fs.len() > 3 && fs[2].kind is Str { 3 } else { 2 }, w) {
                Outcome::Done(v, w1) => performed(l, Act::Define(ns, name@, v), w1),
                o => o,
            },
            _ => Outcome::Stuck,
        }
    }
}

/// `set!`: what is assigned is the result.
pub open spec fn eval_set(l: Lang, ns: Seq<char>, env: Env, fs: Seq<Form>, w: int, fuel: nat) -> Outcome<int>
    decreases fuel, fs, fs.len() as int, 1int,
{
    if fs.len() != 3 {
        Outcome::Stuck
    } else {
        match eval(l, ns, env, fs[1], w, fuel) {
            Outcome::Done(var, w1) => match eval(l, ns, env, fs[2], w1, fuel) {
                Outcome::Done(v, w2) => match performed(l, Act::Assign(var, v), w2) {
                    Outcome::Done(_, w3) => Outcome::Done(v, w3),
                    o => o,
                },
                o => o,
            },
            o => o,
        }
    }
}

/// `and`: the first of the forms from `i` on that is not true, or the last; true where there is none.
pub open spec fn eval_and(l: Lang, ns: Seq<char>, env: Env, fs: Seq<Form>, i: int, w: int, fuel: nat) -> Outcome<int>
    decreases fuel, fs, fs.len() - i, 1int,
{
    if i < 0 || i >= fs.len() {
        Outcome::Done((l.constant)(ConstView::Bool(true)), w)
    } else if i + 1 == fs.len() {
        eval(l, ns, env, fs[i], w, fuel)
    } else {
        match eval(l, ns, env, fs[i], w, fuel) {
            Outcome::Done(v, w1) => if (l.truthy)(v) { eval_and(l, ns, env, fs, i + 1, w1, fuel) } else { Outcome::Done(v, w1) },
            o => o,
        }
    }
}

/// `or`: the first of the forms from `i` on that is true, or the last; nil where there is none.
pub open spec fn eval_or(l: Lang, ns: Seq<char>, env: Env, fs: Seq<Form>, i: int, w: int, fuel: nat) -> Outcome<int>
    decreases fuel, fs, fs.len() - i, 1int,
{
    if i < 0 || i >= fs.len() {
        Outcome::Done((l.constant)(ConstView::Nil), w)
    } else if i + 1 == fs.len() {
        eval(l, ns, env, fs[i], w, fuel)
    } else {
        match eval(l, ns, env, fs[i], w, fuel) {
            Outcome::Done(v, w1) => if (l.truthy)(v) { Outcome::Done(v, w1) } else { eval_or(l, ns, env, fs, i + 1, w1, fuel) },
            o => o,
        }
    }
}

/// The values of a function.
pub type Regs = Map<VarId, int>;

/// The blocks of a function, by their numbers.
pub type Code = Map<BlockId, BlockView>;

/// Where a run is: at an instruction of a block, behind its end, or nowhere.
pub enum Point {
    At(BlockId, int, Regs, int),
    Returned(int, int),
    Thrown(int, int),
    Nowhere,
}

/// What the values are.
pub open spec fn read(regs: Regs, vs: Seq<VarId>) -> Seq<int> {
    Seq::new(vs.len(), |i: int| regs[vs[i]])
}

/// What an instruction asks for, and where its result goes.
pub open spec fn asked(inst: InstView, regs: Regs) -> Option<(Option<VarId>, Act)> {
    match inst {
        InstView::LoadGlobal(d, ns, name) => Some((Some(d), Act::Global(ns, name))),
        InstView::AllocVector(d, vs) => Some((Some(d), Act::Vector(read(regs, vs)))),
        InstView::AllocList(d, vs) => Some((Some(d), Act::List(read(regs, vs)))),
        InstView::AllocSet(d, vs) => Some((Some(d), Act::HashSet(read(regs, vs)))),
        InstView::AllocMap(d, ps) => Some((Some(d), Act::Dict(Seq::new(ps.len(), |i: int| (regs[ps[i].0], regs[ps[i].1]))))),
        InstView::AllocClosure(d, t, vs) => Some((
            Some(d),
            Act::Closure(
                TemplateView { capture_names: Seq::empty(), ..t },
                Map::new(|n: Seq<char>| t.capture_names.contains(n), |n: Seq<char>| regs[vs[t.capture_names.index_of(n)]]),
            ),
        )),
        InstView::CallKnown(d, kf, vs) => Some((Some(d), Act::Known(kf, read(regs, vs)))),
        InstView::Call(d, f, vs) => Some((Some(d), Act::Call(regs[f], read(regs, vs)))),
        InstView::Deref(d, v) => Some((Some(d), Act::Deref(regs[v]))),
        InstView::DefVar(d, ns, name, v) => Some((Some(d), Act::Define(ns, name, regs[v]))),
        InstView::SetBang(a, b) => Some((None, Act::Assign(regs[a], regs[b]))),
        _ => None,
    }
}

/// What an instruction does.
pub open spec fn instructed(l: Lang, inst: InstView, b: BlockId, i: int, regs: Regs, w: int) -> Point {
    match inst {
        InstView::Const(d, c) => Point::At(b, i + 1, regs.insert(d, (l.constant)(c)), w),
        InstView::Throw(v) => Point::Thrown(regs[v], w),
        _ => match asked(inst, regs) {
            None => Point::Nowhere,
            Some((d, a)) => match (l.act)(a, w) {
                Reply::Gives(v, w1) => Point::At(b, i + 1, if d is Some { regs.insert(d->Some_0, v) } else { regs }, w1),
                Reply::Throws(v, w1) => Point::Thrown(v, w1),
                Reply::Never => Point::Nowhere,
            },
        },
    }
}

/// What a phi takes from block `from`, of its inputs from `i` on.
pub open spec fn taken(es: Seq<(BlockId, VarId)>, from: BlockId, i: int) -> Option<VarId>
    decreases es.len() - i,
{
    if i < 0 || i >= es.len() {
        None
    } else if es[i].0 == from {
        Some(es[i].1)
    } else {
        taken(es, from, i + 1)
    }
}

/// The values with the first `n` phis, all of them taken as one from block `from`.
pub open spec fn joined(phis: Seq<InstView>, from: BlockId, regs: Regs, n: int) -> Option<Regs>
    decreases n,
{
    if n <= 0 {
        Some(regs)
    } else {
        match (joined(phis, from, regs, n - 1), phis[n - 1]) {
            (Some(r), InstView::Phi(d, es)) => match taken(es, from, 0) {
                Some(v) => Some(r.insert(d, regs[v])),
                None => None,
            },
            _ => None,
        }
    }
}

/// The values with the first `n` phis given new values, all of them as one.
pub open spec fn passed(phis: Seq<InstView>, args: Seq<VarId>, regs: Regs, n: int) -> Option<Regs>
    decreases n,
{
    if n <= 0 {
        Some(regs)
    } else {
        match (passed(phis, args, regs, n - 1), phis[n - 1]) {
            (Some(r), InstView::Phi(d, _)) => Some(r.insert(d, regs[args[n - 1]])),
            _ => None,
        }
    }
}

/// The start of block `to`, from block `from`.
pub open spec fn arrived(code: Code, from: BlockId, to: BlockId, regs: Regs, w: int) -> Point {
    if !code.dom().contains(to) {
        Point::Nowhere
    } else {
        match joined(code[to].phis, from, regs, code[to].phis.len() as int) {
            Some(r) => Point::At(to, 0, r, w),
            None => Point::Nowhere,
        }
    }
}

/// What the end of a block does: a branch goes its first way where its value is true, and the second
/// otherwise.
pub open spec fn ended(l: Lang, code: Code, b: BlockId, regs: Regs, w: int) -> Point {
    match code[b].terminator {
        TermView::Return(v) => Point::Returned(regs[v], w),
        TermView::Jump(to) => arrived(code, b, to, regs, w),
        TermView::Branch(v, yes, no) => arrived(code, b, if (l.truthy)(regs[v]) { yes } else { no }, regs, w),
        TermView::RecurJump(to, args) => if !code.dom().contains(to) || code[to].phis.len() != args.len() {
            Point::Nowhere
        } else {
            match passed(code[to].phis, args, regs, args.len() as int) {
                Some(r) => Point::At(to, 0, r, w),
                None => Point::Nowhere,
            }
        },
        TermView::Unreachable => Point::Nowhere,
    }
}

/// The next point of a run.
pub open spec fn moved(l: Lang, code: Code, p: Point) -> Point {
    match p {
        Point::At(b, i, regs, w) => if !code.dom().contains(b) {
            Point::Nowhere
        } else if 0 <= i < code[b].insts.len() {
            instructed(l, code[b].insts[i], b, i, regs, w)
        } else {
            ended(l, code, b, regs, w)
        },
        _ => p,
    }
}

/// The point of a run `n` moves on.
pub open spec fn walked(l: Lang, code: Code, p: Point, n: nat) -> Point
    decreases n,
{
    if n == 0 { p } else { walked(l, code, moved(l, code, p), (n - 1) as nat) }
}

/// A run comes from one point to the other.
pub open spec fn reaches(l: Lang, code: Code, p: Point, q: Point) -> bool {
    exists|n: nat| #[trigger] walked(l, code, p, n) == q
}

/// The table gives every block under its own number.
pub open spec fn is_code(code: Code, blocks: Seq<BlockView>) -> bool {
    forall|k: int| 0 <= k < blocks.len() ==> code.dom().contains((#[trigger] blocks[k]).id) && code[blocks[k].id] == blocks[k]
}

} // verus!
