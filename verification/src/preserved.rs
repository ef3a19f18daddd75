//! Lowering keeps what forms mean: a lowered function computes what its body evaluates to.
use crate::anf;
use crate::anf::{LowerErrorView, LowerView, Lowered};
use crate::form;
use crate::form::{Form, FormKind};
use crate::ir::{BlockId, BlockView, ConstView, FunctionView, InstView, KnownFn, TemplateView, TermView, VarId};
use crate::lowered;
use crate::meaning;
use crate::meaning::{Act, Code, Env, Lang, Outcome, Point, Regs, Reply};
use crate::text;
use vstd::prelude::*;

verus! {

/// A phi is the other with more inputs behind its own.
spec fn is_fed(p: InstView, q: InstView) -> bool {
    match (p, q) {
        (InstView::Phi(d, es), InstView::Phi(e, fs)) => d == e && es.len() <= fs.len() && forall|k: int| 0 <= k < es.len() ==> #[trigger] fs[k] == es[k],
        _ => p == q,
    }
}

spec fn are_fed(ps: Seq<InstView>, qs: Seq<InstView>) -> bool {
    ps.len() == qs.len() && forall|i: int| 0 <= i < ps.len() ==> is_fed(#[trigger] ps[i], qs[i])
}

/// The code has a finished block.
spec fn kept(code: Code, b: BlockView) -> bool {
    &&& code.dom().contains(b.id)
    &&& code[b.id].insts == b.insts
    &&& code[b.id].terminator == b.terminator
    &&& are_fed(b.phis, code[b.id].phis)
}

spec fn all_kept(code: Code, blocks: Seq<BlockView>) -> bool {
    forall|k: int| 0 <= k < blocks.len() ==> kept(code, #[trigger] blocks[k])
}

/// The instructions of the block under construction that are no phis.
spec fn plain(s: LowerView) -> Seq<InstView> {
    anf::select(s.insts, false)
}

/// The code has what is finished, and what there is of the block under construction.
spec fn fits(code: Code, s: LowerView) -> bool {
    &&& all_kept(code, s.blocks)
    &&& code.dom().contains(s.current)
    &&& are_fed(anf::select(s.insts, true), code[s.current].phis)
    &&& plain(s).len() <= code[s.current].insts.len()
    &&& forall|k: int| 0 <= k < plain(s).len() ==> #[trigger] plain(s)[k] == code[s.current].insts[k]
}

/// What a step leaves alone.
spec fn calm(s: LowerView, t: LowerView) -> bool {
    &&& s.next_var <= t.next_var
    &&& s.next_block <= t.next_block
    &&& t.headers == s.headers
    &&& t.ns == s.ns
    &&& t.current == s.current || s.next_block <= t.current.0 < t.next_block
}

spec fn is_below(scope: Seq<(Seq<char>, VarId)>, n: u32) -> bool {
    forall|j: int| 0 <= j < scope.len() ==> (#[trigger] scope[j]).1.0 < n
}

spec fn is_single(scope: Seq<(Seq<char>, VarId)>) -> bool {
    forall|i: int, j: int| 0 <= i < j < scope.len() ==> (#[trigger] scope[i]).0 != (#[trigger] scope[j]).0
}

/// The names in scope stand for values that there are, and each scope has a name once.
spec fn tidy(s: LowerView) -> bool {
    forall|i: int| 0 <= i < s.locals.len() ==> is_below(#[trigger] s.locals[i], s.next_var) && is_single(s.locals[i])
}

spec fn all_below(vs: Seq<VarId>, n: u32) -> bool {
    forall|k: int| 0 <= k < vs.len() ==> (#[trigger] vs[k]).0 < n
}

spec fn yields(code: Code, s: LowerView, r: Lowered) -> bool {
    r matches Ok((t, v)) ==> {
        &&& calm(s, t)
        &&& t.locals == s.locals
        &&& tidy(s) ==> v.0 < t.next_var
        &&& fits(code, t) ==> fits(code, s)
    }
}

spec fn yields_all(code: Code, s: LowerView, done: Seq<VarId>, r: Result<(LowerView, Seq<VarId>), LowerErrorView>) -> bool {
    r matches Ok((t, vs)) ==> {
        &&& calm(s, t)
        &&& t.locals == s.locals
        &&& tidy(s) && all_below(done, s.next_var) ==> all_below(vs, t.next_var)
        &&& fits(code, t) ==> fits(code, s)
    }
}

proof fn select_push(insts: Seq<InstView>, x: InstView, phis: bool)
    ensures
        anf::select(insts.push(x), phis) == (if (x is Phi) == phis { anf::select(insts, phis).push(x) } else { anf::select(insts, phis) }),
{
    assert(insts.push(x).drop_last() =~= insts);
}

/// What is emitted comes behind what there was.
proof fn emit_fits(code: Code, s: LowerView, inst: InstView)
    requires
        !(inst is Phi),
    ensures
        plain(anf::emit(s, inst)).len() == plain(s).len() + 1,
        fits(code, anf::emit(s, inst)) ==> fits(code, s) && plain(s).len() < code[s.current].insts.len() && code[s.current].insts[plain(s).len() as int] == inst,
{
    let t = anf::emit(s, inst);
    select_push(s.insts, inst, true);
    select_push(s.insts, inst, false);
    if fits(code, t) {
        assert(plain(t)[plain(s).len() as int] == inst);
        assert forall|k: int| 0 <= k < plain(s).len() implies #[trigger] plain(s)[k] == code[s.current].insts[k] by {
            assert(plain(t)[k] == plain(s)[k]);
        }
    }
}

proof fn value_fits(code: Code, s: LowerView, f: spec_fn(VarId) -> InstView)
    requires
        !(f(VarId(s.next_var)) is Phi),
    ensures
        yields(code, s, anf::emit_value(s, f)),
        anf::emit_value(s, f) matches Ok((t, d)) ==> d == VarId(s.next_var) && t.next_var == s.next_var + 1 && t.blocks == s.blocks && t.current == s.current,
{
    if s.next_var < u32::MAX {
        let s1 = LowerView { next_var: (s.next_var + 1) as u32, ..s };
        emit_fits(code, s1, f(VarId(s.next_var)));
        assert(plain(s1) == plain(s));
    }
}

/// The block that ends is in the code as it was built.
proof fn finish_fits(code: Code, s: LowerView, term: TermView)
    ensures
        all_kept(code, anf::finish(s, term).blocks) ==> {
            &&& fits(code, s)
            &&& code[s.current].terminator == term
            &&& code[s.current].insts == plain(s)
        },
{
    let bs = anf::finish(s, term).blocks;
    if all_kept(code, bs) {
        assert(kept(code, bs[s.blocks.len() as int]));
        assert forall|k: int| 0 <= k < s.blocks.len() implies kept(code, #[trigger] s.blocks[k]) by {
            assert(bs[k] == s.blocks[k]);
        }
    }
}

proof fn dead_end_fits(code: Code, s: LowerView, term: TermView)
    ensures
        yields(code, s, anf::dead_end(s, term)),
        anf::dead_end(s, term) matches Ok((t, v)) ==> (fits(code, t) ==> code[s.current].terminator == term && code[s.current].insts == plain(s)),
{
    finish_fits(code, s, term);
    if let Ok((s1, b)) = anf::fresh_block(anf::finish(s, term)) {
        value_fits(code, anf::start(s1, b), |dst: VarId| InstView::Const(dst, ConstView::Nil));
    }
}

proof fn find_range(blocks: Seq<BlockView>, id: BlockId, i: int)
    requires
        0 <= i <= blocks.len(),
    ensures
        i <= anf::finished_at(blocks, id, i) <= blocks.len(),
    decreases blocks.len() - i,
{
    if i < blocks.len() && blocks[i].id != id {
        find_range(blocks, id, i + 1);
    }
}

proof fn feed_fits(code: Code, blocks: Seq<BlockView>, header: BlockId, from: BlockId, args: Seq<VarId>)
    ensures
        all_kept(code, anf::feed_header(blocks, header, from, args)) ==> all_kept(code, blocks),
{
    let h = anf::finished_at(blocks, header, 0);
    let fed = anf::feed_header(blocks, header, from, args);
    find_range(blocks, header, 0);
    if h < blocks.len() && all_kept(code, fed) {
        assert forall|k: int| 0 <= k < blocks.len() implies kept(code, #[trigger] blocks[k]) by {
            assert(kept(code, fed[k]));
            if k == h {
                let b = blocks[k];
                assert(fed[k].id == b.id);
                assert forall|i: int| 0 <= i < b.phis.len() implies is_fed(#[trigger] b.phis[i], code[b.id].phis[i]) by {
                    assert(fed[k].phis[i] == anf::feed_phi(b.phis[i], from, args, i));
                    assert(is_fed(fed[k].phis[i], code[b.id].phis[i]));
                    match (b.phis[i], code[b.id].phis[i]) {
                        (InstView::Phi(d, es), InstView::Phi(e, fs)) => {
                            let gs = fed[k].phis[i]->Phi_1;
                            assert forall|j: int| 0 <= j < es.len() implies #[trigger] fs[j] == es[j] by {
                                assert(gs[j] == es[j]);
                            }
                        },
                        _ => {},
                    }
                }
            } else {
                assert(fed[k] == blocks[k]);
            }
        }
    }
}

proof fn name_range(scope: Seq<(Seq<char>, VarId)>, name: Seq<char>, i: int)
    requires
        0 <= i <= scope.len(),
    ensures
        i <= anf::name_at(scope, name, i) <= scope.len(),
        anf::name_at(scope, name, i) < scope.len() ==> scope[anf::name_at(scope, name, i)].0 == name,
        forall|j: int| i <= j < anf::name_at(scope, name, i) ==> (#[trigger] scope[j]).0 != name,
    decreases scope.len() - i,
{
    if i < scope.len() && scope[i].0 != name {
        name_range(scope, name, i + 1);
    }
}

proof fn lookup_below(s: LowerView, name: Seq<char>, n: int)
    requires
        tidy(s),
        n <= s.locals.len(),
    ensures
        anf::lookup(s.locals, name, n) matches Some(v) ==> v.0 < s.next_var,
    decreases n,
{
    if n > 0 {
        name_range(s.locals[n - 1], name, 0);
        assert(is_below(s.locals[n - 1], s.next_var));
        lookup_below(s, name, n - 1);
    }
}

proof fn symbol_fits(code: Code, s: LowerView, name: Seq<char>)
    ensures
        yields(code, s, anf::lower_symbol(s, name)),
{
    if tidy(s) {
        lookup_below(s, name, s.locals.len() as int);
    }
    match text::before_last(name, '/') {
        Some(ns) => value_fits(code, s, |dst: VarId| InstView::LoadGlobal(dst, ns, text::after_last(name, '/'))),
        None => value_fits(code, s, |dst: VarId| InstView::LoadGlobal(dst, s.ns, name)),
    }
}

spec fn closure_inst(s: LowerView, name: Option<Seq<char>>, forms: Seq<Form>, from: int) -> spec_fn(VarId) -> InstView {
    let (names, vars) = anf::capture_all(s.locals, 0, Seq::empty(), Seq::empty());
    |dst: VarId| InstView::AllocClosure(
        dst,
        TemplateView {
            name,
            arity_fn_names: Seq::empty(),
            param_counts: Seq::empty(),
            is_variadic: Seq::empty(),
            capture_names: names,
            body_forms: form::forms_view(forms.subrange(from, forms.len() as int)),
        },
        vars,
    )
}

proof fn closure_fits(code: Code, s: LowerView, name: Option<Seq<char>>, forms: Seq<Form>, from: int)
    ensures
        yields(code, s, anf::lower_closure(s, name, forms, from)),
        anf::lower_closure(s, name, forms, from) == anf::emit_value(s, closure_inst(s, name, forms, from)),
{
    value_fits(code, s, closure_inst(s, name, forms, from));
}

proof fn const_fits(code: Code, s: LowerView, c: ConstView)
    ensures
        yields(code, s, anf::emit_const(s, c)),
{
    value_fits(code, s, |dst: VarId| InstView::Const(dst, c));
}

proof fn quote_fits(code: Code, s: LowerView, f: Form)
    ensures
        yields(code, s, anf::lower_quote(s, f)),
    decreases f, 0int,
{
    match anf::literal(f.kind) {
        Some(c) => const_fits(code, s, c),
        None => match f.kind {
            FormKind::Symbol(t) => const_fits(code, s, ConstView::Symbol(t@)),
            FormKind::Vector(fs) => {
                quote_all_fits(code, s, fs@, 0, Seq::empty());
                if let Ok((s1, vs)) = anf::quote_all(s, fs@, 0, Seq::empty()) {
                    value_fits(code, s1, |dst: VarId| InstView::AllocVector(dst, vs));
                }
            },
            FormKind::List(fs) => {
                quote_all_fits(code, s, fs@, 0, Seq::empty());
                if let Ok((s1, vs)) = anf::quote_all(s, fs@, 0, Seq::empty()) {
                    value_fits(code, s1, |dst: VarId| InstView::AllocList(dst, vs));
                }
            },
            FormKind::HashSet(fs) => {
                quote_all_fits(code, s, fs@, 0, Seq::empty());
                if let Ok((s1, vs)) = anf::quote_all(s, fs@, 0, Seq::empty()) {
                    value_fits(code, s1, |dst: VarId| InstView::AllocSet(dst, vs));
                }
            },
            FormKind::Dict(fs) => {
                quote_all_fits(code, s, fs@, 0, Seq::empty());
                if let Ok((s1, vs)) = anf::quote_all(s, fs@, 0, Seq::empty()) {
                    value_fits(code, s1, |dst: VarId| InstView::AllocMap(dst, anf::pair_up(vs)));
                }
            },
            _ => {},
        },
    }
}

proof fn quote_all_fits(code: Code, s: LowerView, fs: Seq<Form>, i: int, done: Seq<VarId>)
    ensures
        yields_all(code, s, done, anf::quote_all(s, fs, i, done)),
    decreases fs, fs.len() - i,
{
    if 0 <= i < fs.len() {
        quote_fits(code, s, fs[i]);
        if let Ok((s1, v)) = anf::lower_quote(s, fs[i]) {
            quote_all_fits(code, s1, fs, i + 1, done.push(v));
        }
    }
}

proof fn form_fits(code: Code, s: LowerView, f: Form)
    ensures
        yields(code, s, anf::lower_form(s, f)),
    decreases f, 0int, 0int,
{
    match anf::literal(f.kind) {
        Some(c) => const_fits(code, s, c),
        None => match f.kind {
            FormKind::Symbol(t) => symbol_fits(code, s, t@),
            FormKind::Vector(fs) => {
                all_fits(code, s, fs@, 0, Seq::empty());
                if let Ok((s1, vs)) = anf::lower_all(s, fs@, 0, Seq::empty()) {
                    value_fits(code, s1, |dst: VarId| InstView::AllocVector(dst, vs));
                }
            },
            FormKind::Dict(fs) => {
                all_fits(code, s, fs@, 0, Seq::empty());
                if let Ok((s1, vs)) = anf::lower_all(s, fs@, 0, Seq::empty()) {
                    value_fits(code, s1, |dst: VarId| InstView::AllocMap(dst, anf::pair_up(vs)));
                }
            },
            FormKind::HashSet(fs) => {
                all_fits(code, s, fs@, 0, Seq::empty());
                if let Ok((s1, vs)) = anf::lower_all(s, fs@, 0, Seq::empty()) {
                    value_fits(code, s1, |dst: VarId| InstView::AllocSet(dst, vs));
                }
            },
            FormKind::List(fs) => {
                if fs@.len() == 0 {
                    value_fits(code, s, |dst: VarId| InstView::AllocList(dst, Seq::empty()));
                } else {
                    list_fits(code, s, fs@);
                }
            },
            FormKind::Quote(inner) => quote_fits(code, s, *inner),
            FormKind::Deref(inner) => {
                form_fits(code, s, *inner);
                if let Ok((s1, v)) = anf::lower_form(s, *inner) {
                    value_fits(code, s1, |dst: VarId| InstView::Deref(dst, v));
                }
            },
            FormKind::Meta(_, inner) => form_fits(code, s, *inner),
            _ => {},
        },
    }
}

proof fn all_fits(code: Code, s: LowerView, fs: Seq<Form>, i: int, done: Seq<VarId>)
    ensures
        yields_all(code, s, done, anf::lower_all(s, fs, i, done)),
    decreases fs, fs.len() - i, 0int,
{
    if 0 <= i < fs.len() {
        form_fits(code, s, fs[i]);
        if let Ok((s1, v)) = anf::lower_form(s, fs[i]) {
            all_fits(code, s1, fs, i + 1, done.push(v));
        }
    }
}

proof fn rest_fits(code: Code, s: LowerView, fs: Seq<Form>, i: int, last: VarId)
    ensures
        anf::lower_rest(s, fs, i, last) matches Ok((t, v)) ==> {
            &&& calm(s, t)
            &&& t.locals == s.locals
            &&& tidy(s) && (0 <= i < fs.len() || last.0 < s.next_var) ==> v.0 < t.next_var
            &&& fits(code, t) ==> fits(code, s)
        },
    decreases fs, fs.len() - i, 0int,
{
    if 0 <= i < fs.len() {
        form_fits(code, s, fs[i]);
        if let Ok((s1, v)) = anf::lower_form(s, fs[i]) {
            rest_fits(code, s1, fs, i + 1, v);
        }
    }
}

proof fn body_fits(code: Code, s: LowerView, fs: Seq<Form>, a: int)
    ensures
        yields(code, s, anf::lower_body(s, fs, a)),
    decreases fs, fs.len() - a, 1int,
{
    if a < 0 || a >= fs.len() {
        const_fits(code, s, ConstView::Nil);
    } else {
        rest_fits(code, s, fs, a, VarId(0));
    }
}

proof fn or_nil_fits(code: Code, s: LowerView, fs: Seq<Form>, a: int)
    ensures
        yields(code, s, anf::lower_or_nil(s, fs, a)),
    decreases fs, 0int, 0int,
{
    if 0 <= a < fs.len() {
        form_fits(code, s, fs[a]);
    } else {
        const_fits(code, s, ConstView::Nil);
    }
}

proof fn list_fits(code: Code, s: LowerView, fs: Seq<Form>)
    ensures
        yields(code, s, anf::lower_list(s, fs)),
    decreases fs, fs.len() as int, 2int,
{
    if fs.len() > 0 {
        match fs[0].kind {
            FormKind::Symbol(name) => {
                let t = name@;
                if t == "if"@ {
                    if_fits(code, s, fs);
                } else if t == "do"@ {
                    body_fits(code, s, fs, 1);
                } else if t == "let"@ || t == "let*"@ {
                    let_fits(code, s, fs);
                } else if t == "loop"@ || t == "loop*"@ {
                    loop_fits(code, s, fs);
                } else if t == "recur"@ {
                    recur_fits(code, s, fs);
                } else if t == "def"@ {
                    def_fits(code, s, fs);
                } else if t == "fn"@ || t == "fn*"@ {
                    if fs.len() > 1 {
                        match fs[1].kind {
                            FormKind::Symbol(own) => closure_fits(code, s, Some(own@), fs, 2),
                            _ => closure_fits(code, s, None, fs, 1),
                        }
                    }
                } else if t == "quote"@ {
                    if fs.len() == 2 {
                        quote_fits(code, s, fs[1]);
                    }
                } else if t == "throw"@ {
                    throw_fits(code, s, fs);
                } else if t == "set!"@ {
                    set_fits(code, s, fs);
                } else if anf::is_module_level(t) || anf::is_not_lowered(t) {
                } else if t == "defn"@ {
                    defn_fits(code, s, fs);
                } else if t == "defmacro"@ || t == "defonce"@ {
                } else if t == "and"@ {
                    and_fits(code, s, fs, 1);
                } else if t == "or"@ {
                    or_fits(code, s, fs, 1);
                } else {
                    call_fits(code, s, fs);
                }
            },
            _ => call_fits(code, s, fs),
        }
    }
}

proof fn call_fits(code: Code, s: LowerView, fs: Seq<Form>)
    ensures
        yields(code, s, anf::lower_call(s, fs)),
    decreases fs, fs.len() as int, 1int,
{
    if fs.len() > 0 {
        let known = match fs[0].kind {
            FormKind::Symbol(name) => anf::known_fn(name@),
            _ => None,
        };
        match known {
            Some(kf) => {
                all_fits(code, s, fs, 1, Seq::empty());
                if let Ok((s1, vs)) = anf::lower_all(s, fs, 1, Seq::empty()) {
                    value_fits(code, s1, |dst: VarId| InstView::CallKnown(dst, kf, vs));
                }
            },
            None => {
                form_fits(code, s, fs[0]);
                if let Ok((s1, callee)) = anf::lower_form(s, fs[0]) {
                    all_fits(code, s1, fs, 1, Seq::empty());
                    if let Ok((s2, vs)) = anf::lower_all(s1, fs, 1, Seq::empty()) {
                        value_fits(code, s2, |dst: VarId| InstView::Call(dst, callee, vs));
                    }
                }
            },
        }
    }
}

proof fn def_fits(code: Code, s: LowerView, fs: Seq<Form>)
    ensures
        yields(code, s, anf::lower_def(s, fs)),
    decreases fs, fs.len() as int, 1int,
{
    if fs.len() >= 2 {
        if let Some(name) = anf::def_name(fs[1].kind) {
            or_nil_fits(code, s, fs, 2);
            if let Ok((s1, v)) = anf::lower_or_nil(s, fs, 2) {
                value_fits(code, s1, |dst: VarId| InstView::DefVar(dst, s1.ns, name, v));
            }
        }
    }
}

proof fn defn_fits(code: Code, s: LowerView, fs: Seq<Form>)
    ensures
        yields(code, s, anf::lower_defn(s, fs)),
{
    if fs.len() >= 2 {
        match fs[1].kind {
            FormKind::Symbol(name) => {
                let from: int = if fs.len() > 3 && fs[2].kind is Str { 3 } else { 2 };
                closure_fits(code, s, Some(name@), fs, from);
                if let Ok((s1, v)) = anf::lower_closure(s, Some(name@), fs, from) {
                    value_fits(code, s1, |dst: VarId| InstView::DefVar(dst, s1.ns, name@, v));
                }
            },
            _ => {},
        }
    }
}

proof fn throw_fits(code: Code, s: LowerView, fs: Seq<Form>)
    ensures
        yields(code, s, anf::lower_throw(s, fs)),
    decreases fs, fs.len() as int, 1int,
{
    if fs.len() == 2 {
        form_fits(code, s, fs[1]);
        if let Ok((s1, v)) = anf::lower_form(s, fs[1]) {
            emit_fits(code, s1, InstView::Throw(v));
            dead_end_fits(code, anf::emit(s1, InstView::Throw(v)), TermView::Unreachable);
        }
    }
}

proof fn set_fits(code: Code, s: LowerView, fs: Seq<Form>)
    ensures
        yields(code, s, anf::lower_set_bang(s, fs)),
    decreases fs, fs.len() as int, 1int,
{
    if fs.len() == 3 {
        form_fits(code, s, fs[1]);
        if let Ok((s1, var)) = anf::lower_form(s, fs[1]) {
            form_fits(code, s1, fs[2]);
            if let Ok((s2, v)) = anf::lower_form(s1, fs[2]) {
                emit_fits(code, s2, InstView::SetBang(var, v));
            }
        }
    }
}

proof fn recur_fits(code: Code, s: LowerView, fs: Seq<Form>)
    ensures
        yields(code, s, anf::lower_recur(s, fs)),
    decreases fs, fs.len() as int, 1int,
{
    if fs.len() > 0 {
        all_fits(code, s, fs, 1, Seq::empty());
        if let Ok((s1, args)) = anf::lower_all(s, fs, 1, Seq::empty()) {
            if s1.headers.len() > 0 {
                let header = s1.headers.last().0;
                let s2 = LowerView { blocks: anf::feed_header(s1.blocks, header, s1.current, args), ..s1 };
                feed_fits(code, s1.blocks, header, s1.current, args);
                dead_end_fits(code, s2, TermView::RecurJump(header, args));
                assert(plain(s2) == plain(s1));
            }
        }
    }
}

proof fn bind_fits(code: Code, s: LowerView, name: Seq<char>, v: VarId)
    requires
        s.locals.len() > 0,
    ensures
        ({
            let t = anf::bind(s, name, v);
            &&& t == (LowerView { locals: t.locals, ..s })
            &&& t.locals.len() == s.locals.len()
            &&& t.locals.drop_last() == s.locals.drop_last()
            &&& tidy(s) && v.0 < s.next_var ==> tidy(t)
            &&& fits(code, t) ==> fits(code, s)
        }),
{
    let t = anf::bind(s, name, v);
    let scope = s.locals.last();
    name_range(scope, name, 0);
    assert(t.locals.drop_last() =~= s.locals.drop_last());
    assert(plain(t) == plain(s));
    if tidy(s) && v.0 < s.next_var {
        assert(is_below(scope, s.next_var) && is_single(scope));
        assert forall|i: int| 0 <= i < t.locals.len() implies is_below(#[trigger] t.locals[i], t.next_var) && is_single(t.locals[i]) by {
            if i < t.locals.len() - 1 {
                assert(t.locals[i] == s.locals[i]);
            }
        }
    }
}

proof fn bindings_fit(code: Code, s: LowerView, bs: Seq<Form>, i: int)
    requires
        s.locals.len() > 0,
    ensures
        anf::lower_bindings(s, bs, i) matches Ok(t) ==> {
            &&& calm(s, t)
            &&& t.locals.len() == s.locals.len()
            &&& t.locals.drop_last() == s.locals.drop_last()
            &&& tidy(s) ==> tidy(t)
            &&& fits(code, t) ==> fits(code, s)
        },
    decreases bs, bs.len() - i, 0int,
{
    if 0 <= i && i + 1 < bs.len() {
        match bs[i].kind {
            FormKind::Symbol(name) => {
                form_fits(code, s, bs[i + 1]);
                if let Ok((s1, v)) = anf::lower_form(s, bs[i + 1]) {
                    bind_fits(code, s1, name@, v);
                    later_is_tidy(s, s1);
                    bindings_fit(code, anf::bind(s1, name@, v), bs, i + 2);
                }
            },
            _ => {},
        }
    }
}

proof fn later_is_tidy(s: LowerView, t: LowerView)
    requires
        t.locals == s.locals,
        s.next_var <= t.next_var,
    ensures
        tidy(s) ==> tidy(t),
{
    if tidy(s) {
        assert forall|i: int| 0 <= i < t.locals.len() implies is_below(#[trigger] t.locals[i], t.next_var) && is_single(t.locals[i]) by {
            assert(is_below(s.locals[i], s.next_var));
        }
    }
}

proof fn push_scope_is_tidy(s: LowerView)
    ensures
        tidy(s) ==> tidy(anf::push_scope(s)),
{
    let t = anf::push_scope(s);
    if tidy(s) {
        assert forall|i: int| 0 <= i < t.locals.len() implies is_below(#[trigger] t.locals[i], t.next_var) && is_single(t.locals[i]) by {
            if i < s.locals.len() {
                assert(t.locals[i] == s.locals[i]);
            }
        }
    }
}

proof fn let_fits(code: Code, s: LowerView, fs: Seq<Form>)
    ensures
        yields(code, s, anf::lower_let(s, fs)),
    decreases fs, fs.len() as int, 1int,
{
    if fs.len() >= 2 {
        match fs[1].kind {
            FormKind::Vector(bs) => {
                let p = anf::push_scope(s);
                push_scope_is_tidy(s);
                assert(p.locals.drop_last() =~= s.locals);
                bindings_fit(code, p, bs@, 0);
                if let Ok(s1) = anf::lower_bindings(p, bs@, 0) {
                    body_fits(code, s1, fs, 2);
                    if let Ok((s2, v)) = anf::lower_body(s1, fs, 2) {
                        assert(plain(anf::pop_scope(s2)) == plain(s2));
                        assert(plain(p) == plain(s));
                    }
                }
            },
            _ => {},
        }
    }
}

proof fn and_fits(code: Code, s: LowerView, fs: Seq<Form>, a: int)
    ensures
        yields(code, s, anf::lower_and(s, fs, a)),
    decreases fs, fs.len() - a, 1int,
{
    if a < 0 || a >= fs.len() {
        const_fits(code, s, ConstView::Bool(true));
    } else {
        form_fits(code, s, fs[a]);
        if a + 1 < fs.len() {
            if let Ok((s1, first)) = anf::lower_form(s, fs[a]) {
                if let Ok((s2, rest)) = anf::fresh_block(s1) {
                    if let Ok((s3, join)) = anf::fresh_block(s2) {
                        let term = TermView::Branch(first, rest, join);
                        let s4 = anf::start(anf::finish(s3, term), rest);
                        finish_fits(code, s3, term);
                        and_fits(code, s4, fs, a + 1);
                        if let Ok((s5, v)) = anf::lower_and(s4, fs, a + 1) {
                            finish_fits(code, s5, TermView::Jump(join));
                            assert(plain(s3) == plain(s1));
                        }
                    }
                }
            }
        }
    }
}

proof fn or_fits(code: Code, s: LowerView, fs: Seq<Form>, a: int)
    ensures
        yields(code, s, anf::lower_or(s, fs, a)),
    decreases fs, fs.len() - a, 1int,
{
    if a < 0 || a >= fs.len() {
        const_fits(code, s, ConstView::Nil);
    } else {
        form_fits(code, s, fs[a]);
        if a + 1 < fs.len() {
            if let Ok((s1, first)) = anf::lower_form(s, fs[a]) {
                if let Ok((s2, rest)) = anf::fresh_block(s1) {
                    if let Ok((s3, join)) = anf::fresh_block(s2) {
                        let term = TermView::Branch(first, join, rest);
                        let s4 = anf::start(anf::finish(s3, term), rest);
                        finish_fits(code, s3, term);
                        or_fits(code, s4, fs, a + 1);
                        if let Ok((s5, v)) = anf::lower_or(s4, fs, a + 1) {
                            finish_fits(code, s5, TermView::Jump(join));
                            assert(plain(s3) == plain(s1));
                        }
                    }
                }
            }
        }
    }
}

proof fn if_fits(code: Code, s: LowerView, fs: Seq<Form>)
    ensures
        yields(code, s, anf::lower_if(s, fs)),
    decreases fs, fs.len() as int, 1int,
{
    if 2 <= fs.len() <= 4 {
        form_fits(code, s, fs[1]);
        if let Ok((s1, test)) = anf::lower_form(s, fs[1]) {
            if let Ok((s2, then_block)) = anf::fresh_block(s1) {
                if let Ok((s3, else_block)) = anf::fresh_block(s2) {
                    if let Ok((s4, join)) = anf::fresh_block(s3) {
                        let term = TermView::Branch(test, then_block, else_block);
                        let s5 = anf::start(anf::finish(s4, term), then_block);
                        finish_fits(code, s4, term);
                        or_nil_fits(code, s5, fs, 2);
                        if let Ok((s6, then_val)) = anf::lower_or_nil(s5, fs, 2) {
                            let s7 = anf::start(anf::finish(s6, TermView::Jump(join)), else_block);
                            finish_fits(code, s6, TermView::Jump(join));
                            or_nil_fits(code, s7, fs, 3);
                            if let Ok((s8, else_val)) = anf::lower_or_nil(s7, fs, 3) {
                                finish_fits(code, s8, TermView::Jump(join));
                                assert(plain(s4) == plain(s1));
                            }
                        }
                    }
                }
            }
        }
    }
}

proof fn inits_fit(code: Code, s: LowerView, bs: Seq<Form>, i: int, names: Seq<Seq<char>>, vars: Seq<VarId>)
    ensures
        anf::lower_inits(s, bs, i, names, vars) matches Ok((t, ns, vs)) ==> {
            &&& calm(s, t)
            &&& t.locals == s.locals
            &&& tidy(s) && all_below(vars, s.next_var) ==> all_below(vs, t.next_var)
            &&& fits(code, t) ==> fits(code, s)
            &&& names.len() == vars.len() ==> ns.len() == vs.len()
        },
    decreases bs, bs.len() - i, 0int,
{
    if 0 <= i && i + 1 < bs.len() {
        match bs[i].kind {
            FormKind::Symbol(name) => {
                form_fits(code, s, bs[i + 1]);
                if let Ok((s1, v)) = anf::lower_form(s, bs[i + 1]) {
                    inits_fit(code, s1, bs, i + 2, names.push(name@), vars.push(v));
                }
            },
            _ => {},
        }
    }
}

/// The phis of a loop as they are made.
spec fn header_phis(init: BlockId, vars: Seq<VarId>, phis: Seq<VarId>) -> Seq<InstView> {
    Seq::new(phis.len(), |k: int| InstView::Phi(phis[k], seq![(init, vars[k])]))
}

proof fn loop_phis_fit(s: LowerView, init: BlockId, names: Seq<Seq<char>>, vars: Seq<VarId>, i: int, done: Seq<VarId>, base: u32)
    requires
        s.locals.len() > 0,
        0 <= i <= names.len(),
        done.len() == i,
        s.next_var == base + i,
        forall|k: int| 0 <= k < i ==> (#[trigger] done[k]).0 == base + k,
        anf::select(s.insts, true) == header_phis(init, vars, done),
    ensures
        anf::loop_phis(s, init, names, vars, i, done) matches Ok((t, phis)) ==> {
            &&& t == (LowerView { next_var: t.next_var, insts: t.insts, locals: t.locals, ..s })
            &&& t.next_var == base + names.len()
            &&& t.locals.len() == s.locals.len()
            &&& t.locals.drop_last() == s.locals.drop_last()
            &&& tidy(s) ==> tidy(t)
            &&& phis.len() == names.len()
            &&& forall|k: int| 0 <= k < phis.len() ==> (#[trigger] phis[k]).0 == base + k
            &&& anf::select(t.insts, true) == header_phis(init, vars, phis)
            &&& plain(t) == plain(s)
        },
    decreases names.len() - i,
{
    if i < names.len() && s.next_var < u32::MAX {
        let f = |dst: VarId| InstView::Phi(dst, seq![(init, vars[i])]);
        let p = VarId(s.next_var);
        let s1 = anf::emit(LowerView { next_var: (s.next_var + 1) as u32, ..s }, f(p));
        assert(anf::emit_value(s, f) == Ok::<(LowerView, VarId), LowerErrorView>((s1, p)));
        select_push(s.insts, f(p), true);
        select_push(s.insts, f(p), false);
        assert(anf::select(s1.insts, true) =~= header_phis(init, vars, done.push(p)));
        later_is_tidy(s, s1);
        bind_fits(Map::empty(), s1, names[i], p);
        loop_phis_fit(anf::bind(s1, names[i], p), init, names, vars, i + 1, done.push(p), base);
    }
}

proof fn loop_fits(code: Code, s: LowerView, fs: Seq<Form>)
    ensures
        yields(code, s, anf::lower_loop(s, fs)),
    decreases fs, fs.len() as int, 1int,
{
    if fs.len() >= 2 {
        match fs[1].kind {
            FormKind::Vector(bs) => {
                inits_fit(code, s, bs@, 0, Seq::empty(), Seq::empty());
                if let Ok((s1, names, vars)) = anf::lower_inits(s, bs@, 0, Seq::empty(), Seq::empty()) {
                    if let Ok((s2, header)) = anf::fresh_block(s1) {
                        let s3 = anf::push_scope(anf::start(anf::finish(s2, TermView::Jump(header)), header));
                        finish_fits(code, s2, TermView::Jump(header));
                        assert(plain(s2) == plain(s1));
                        assert(s3.locals.drop_last() =~= s.locals);
                        assert(anf::select(s3.insts, true) =~= header_phis(s2.current, vars, Seq::empty()));
                        loop_phis_fit(s3, s2.current, names, vars, 0, Seq::empty(), s3.next_var);
                        if let Ok((s4, phis)) = anf::loop_phis(s3, s2.current, names, vars, 0, Seq::empty()) {
                            let b = LowerView { headers: s4.headers.push((header, phis)), ..s4 };
                            body_fits(code, b, fs, 2);
                            if let Ok((s5, v)) = anf::lower_body(b, fs, 2) {
                                let s6 = anf::pop_header(s5);
                                assert(s6.headers =~= s.headers);
                                if let Ok((s7, exit)) = anf::fresh_block(s6) {
                                    finish_fits(code, s7, TermView::Jump(exit));
                                    assert(plain(s7) == plain(s5));
                                    assert(plain(b) == plain(s4));
                                }
                            }
                        }
                    }
                }
            },
            _ => {},
        }
    }
}

/// Where a lowering is, as a point of a run.
spec fn here(s: LowerView, regs: Regs, w: int) -> Point {
    Point::At(s.current, plain(s).len() as int, regs, w)
}

/// The values below `n` are the same.
spec fn alike(a: Regs, b: Regs, n: u32) -> bool {
    forall|u: VarId| u.0 < n ==> #[trigger] b[u] == a[u]
}

spec fn is_scope(m: Map<Seq<char>, int>, scope: Seq<(Seq<char>, VarId)>, regs: Regs) -> bool {
    &&& forall|j: int| 0 <= j < scope.len() ==> m.dom().contains((#[trigger] scope[j]).0) && m[scope[j].0] == regs[scope[j].1]
    &&& forall|n: Seq<char>| #[trigger] m.dom().contains(n) ==> exists|j: int| 0 <= j < scope.len() && (#[trigger] scope[j]).0 == n
}

/// The names stand for what their values are.
spec fn shows(env: Env, locals: Seq<Seq<(Seq<char>, VarId)>>, regs: Regs) -> bool {
    env.len() == locals.len() && forall|i: int| 0 <= i < locals.len() ==> is_scope(env[i], #[trigger] locals[i], regs)
}

/// The phis of a block are those of a loop.
spec fn has_phis(phis: Seq<InstView>, ps: Seq<VarId>) -> bool {
    &&& phis.len() == ps.len()
    &&& forall|k: int| 0 <= k < ps.len() ==> #[trigger] phis[k] is Phi && phis[k]->Phi_0 == ps[k]
    &&& forall|j: int, k: int| 0 <= j < k < ps.len() ==> (#[trigger] ps[j]) != (#[trigger] ps[k])
}

/// The innermost loop has its block.
spec fn heads(code: Code, s: LowerView) -> bool {
    s.headers.len() > 0 ==> code.dom().contains(s.headers.last().0) && has_phis(code[s.headers.last().0].phis, s.headers.last().1)
}

spec fn ready(code: Code, s: LowerView, env: Env, regs: Regs) -> bool {
    tidy(s) && shows(env, s.locals, regs) && heads(code, s)
}

/// The run gets from one state of the lowering to the other.
spec fn goes(l: Lang, code: Code, s: LowerView, t: LowerView, regs: Regs, w: int, r: Regs, w1: int) -> bool {
    meaning::reaches(l, code, here(s, regs, w), here(t, r, w1)) && alike(regs, r, s.next_var)
}

/// The run leaves as an outcome without a result says.
spec fn escapes(l: Lang, code: Code, s: LowerView, regs: Regs, w: int, o: Outcome<int>, r: Regs) -> bool {
    match o {
        Outcome::Recur(vs, w1) => s.headers.len() > 0 && (vs.len() == s.headers.last().1.len() ==> {
            &&& meaning::reaches(l, code, here(s, regs, w), Point::At(s.headers.last().0, 0, r, w1))
            &&& vs == meaning::read(r, s.headers.last().1)
            &&& forall|u: VarId| u.0 < s.next_var && !s.headers.last().1.contains(u) ==> #[trigger] r[u] == regs[u]
        }),
        Outcome::Thrown(x, w1) => meaning::reaches(l, code, here(s, regs, w), Point::Thrown(x, w1)),
        _ => true,
    }
}

spec fn runs_to(l: Lang, code: Code, s: LowerView, t: LowerView, v: VarId, regs: Regs, w: int, o: Outcome<int>, r: Regs) -> bool {
    match o {
        Outcome::Done(x, w1) => goes(l, code, s, t, regs, w, r, w1) && r[v] == x,
        _ => escapes(l, code, s, regs, w, o, r),
    }
}

spec fn runs(l: Lang, code: Code, s: LowerView, low: Lowered, regs: Regs, w: int, o: Outcome<int>, r: Regs) -> bool {
    runs_to(l, code, s, low->Ok_0.0, low->Ok_0.1, regs, w, o, r)
}

spec fn runs_all(l: Lang, code: Code, s: LowerView, t: LowerView, vs: Seq<VarId>, regs: Regs, w: int, o: Outcome<Seq<int>>, r: Regs) -> bool {
    match o {
        Outcome::Done(xs, w1) => goes(l, code, s, t, regs, w, r, w1) && xs == meaning::read(r, vs),
        _ => escapes(l, code, s, regs, w, meaning::left(o), r),
    }
}

spec fn is_built(code: Code, low: Lowered) -> bool {
    low is Ok && fits(code, low->Ok_0.0)
}

proof fn walk_adds(l: Lang, code: Code, p: Point, n: nat, m: nat)
    ensures
        meaning::walked(l, code, p, n + m) == meaning::walked(l, code, meaning::walked(l, code, p, n), m),
    decreases n,
{
    if n > 0 {
        walk_adds(l, code, meaning::moved(l, code, p), (n - 1) as nat, m);
    }
}

proof fn reach_self(l: Lang, code: Code, p: Point)
    ensures
        meaning::reaches(l, code, p, p),
{
    assert(meaning::walked(l, code, p, 0) == p);
}

proof fn reach_one(l: Lang, code: Code, p: Point)
    ensures
        meaning::reaches(l, code, p, meaning::moved(l, code, p)),
{
    let q = meaning::moved(l, code, p);
    assert(meaning::walked(l, code, q, 0) == q);
    assert(meaning::walked(l, code, p, 1) == q);
}

proof fn reach_on(l: Lang, code: Code, p: Point, q: Point, z: Point)
    requires
        meaning::reaches(l, code, p, q),
        meaning::reaches(l, code, q, z),
    ensures
        meaning::reaches(l, code, p, z),
{
    let n = choose|n: nat| #[trigger] meaning::walked(l, code, p, n) == q;
    let m = choose|m: nat| #[trigger] meaning::walked(l, code, q, m) == z;
    walk_adds(l, code, p, n, m);
    assert(meaning::walked(l, code, p, n + m) == z);
}

/// A run that got somewhere goes on from there.
proof fn go_on(l: Lang, code: Code, s: LowerView, s1: LowerView, t: LowerView, v: VarId, regs: Regs, w: int, r1: Regs, w1: int, o: Outcome<int>, r: Regs)
    requires
        goes(l, code, s, s1, regs, w, r1, w1),
        s.next_var <= s1.next_var,
        s.headers == s1.headers,
        runs_to(l, code, s1, t, v, r1, w1, o, r),
    ensures
        runs_to(l, code, s, t, v, regs, w, o, r),
{
    escape_on(l, code, s, s1, regs, w, r1, w1, o, r);
    match o {
        Outcome::Done(x, w2) => reach_on(l, code, here(s, regs, w), here(s1, r1, w1), here(t, r, w2)),
        _ => {},
    }
}

proof fn escape_on(l: Lang, code: Code, s: LowerView, s1: LowerView, regs: Regs, w: int, r1: Regs, w1: int, o: Outcome<int>, r: Regs)
    requires
        goes(l, code, s, s1, regs, w, r1, w1),
        s.next_var <= s1.next_var,
        s.headers == s1.headers,
        !(o is Done) ==> escapes(l, code, s1, r1, w1, o, r),
    ensures
        escapes(l, code, s, regs, w, o, r),
{
    match o {
        Outcome::Recur(vs, w2) => {
            if vs.len() == s.headers.last().1.len() {
                reach_on(l, code, here(s, regs, w), here(s1, r1, w1), Point::At(s.headers.last().0, 0, r, w2));
            }
        },
        Outcome::Thrown(x, w2) => reach_on(l, code, here(s, regs, w), here(s1, r1, w1), Point::Thrown(x, w2)),
        _ => {},
    }
}

proof fn shows_later(s: LowerView, env: Env, regs: Regs, r: Regs)
    requires
        tidy(s),
        shows(env, s.locals, regs),
        alike(regs, r, s.next_var),
    ensures
        shows(env, s.locals, r),
{
    assert forall|i: int| 0 <= i < s.locals.len() implies is_scope(env[i], #[trigger] s.locals[i], r) by {
        let scope = s.locals[i];
        assert(is_scope(env[i], scope, regs) && is_below(scope, s.next_var));
        assert forall|j: int| 0 <= j < scope.len() implies env[i].dom().contains((#[trigger] scope[j]).0) && env[i][scope[j].0] == r[scope[j].1] by {
            assert(r[scope[j].1] == regs[scope[j].1]);
        }
    }
}

proof fn ready_later(code: Code, s: LowerView, s1: LowerView, env: Env, regs: Regs, r: Regs)
    requires
        ready(code, s, env, regs),
        alike(regs, r, s.next_var),
        s1.locals == s.locals,
        s1.headers == s.headers,
        s.next_var <= s1.next_var,
    ensures
        ready(code, s1, env, r),
{
    shows_later(s, env, regs, r);
    later_is_tidy(s, s1);
}

proof fn sees(env: Env, locals: Seq<Seq<(Seq<char>, VarId)>>, regs: Regs, name: Seq<char>, n: int)
    requires
        shows(env, locals, regs),
        n <= locals.len(),
    ensures
        match anf::lookup(locals, name, n) {
            Some(v) => meaning::seen(env, name, n) == Some(regs[v]),
            None => meaning::seen(env, name, n) is None,
        },
    decreases n,
{
    if n > 0 {
        let scope = locals[n - 1];
        assert(is_scope(env[n - 1], scope, regs));
        name_range(scope, name, 0);
        let i = anf::name_at(scope, name, 0);
        if i < scope.len() {
            assert(env[n - 1].dom().contains(scope[i].0));
        } else {
            assert(!env[n - 1].dom().contains(name));
            sees(env, locals, regs, name, n - 1);
        }
    }
}

proof fn const_runs(l: Lang, code: Code, s: LowerView, c: ConstView, regs: Regs, w: int) -> (r: Regs)
    requires
        is_built(code, anf::emit_const(s, c)),
    ensures
        runs(l, code, s, anf::emit_const(s, c), regs, w, Outcome::Done((l.constant)(c), w), r),
{
    let f = |dst: VarId| InstView::Const(dst, c);
    let d = VarId(s.next_var);
    let s1 = LowerView { next_var: (s.next_var + 1) as u32, ..s };
    emit_fits(code, s1, f(d));
    let r = regs.insert(d, (l.constant)(c));
    reach_one(l, code, here(s, regs, w));
    assert(plain(s1) == plain(s));
    r
}

/// An instruction that asks for an act has what comes of that.
proof fn act_runs(l: Lang, code: Code, s: LowerView, f: spec_fn(VarId) -> InstView, a: Act, regs: Regs, w: int) -> (r: Regs)
    requires
        is_built(code, anf::emit_value(s, f)),
        !(f(VarId(s.next_var)) is Phi),
        meaning::asked(f(VarId(s.next_var)), regs) == Some((Some(VarId(s.next_var)), a)),
    ensures
        runs(l, code, s, anf::emit_value(s, f), regs, w, meaning::performed(l, a, w), r),
{
    let d = VarId(s.next_var);
    let s1 = LowerView { next_var: (s.next_var + 1) as u32, ..s };
    emit_fits(code, s1, f(d));
    reach_one(l, code, here(s, regs, w));
    assert(plain(s1) == plain(s));
    match (l.act)(a, w) {
        Reply::Gives(v, w1) => regs.insert(d, v),
        _ => regs,
    }
}

proof fn taken_still(es: Seq<(BlockId, VarId)>, fs: Seq<(BlockId, VarId)>, from: BlockId, i: int)
    requires
        0 <= i,
        es.len() <= fs.len(),
        forall|k: int| 0 <= k < es.len() ==> #[trigger] fs[k] == es[k],
    ensures
        meaning::taken(es, from, i) is Some ==> meaning::taken(fs, from, i) == meaning::taken(es, from, i),
    decreases es.len() - i,
{
    if i < es.len() {
        assert(fs[i] == es[i]);
        taken_still(es, fs, from, i + 1);
    }
}

proof fn joined_sets(phis: Seq<InstView>, from: BlockId, regs: Regs, ps: Seq<VarId>, vars: Seq<VarId>, n: int) -> (r: Regs)
    requires
        has_phis(phis, ps),
        vars.len() == ps.len(),
        0 <= n <= ps.len(),
        forall|k: int| 0 <= k < ps.len() ==> meaning::taken((#[trigger] phis[k])->Phi_1, from, 0) == Some(vars[k]),
    ensures
        meaning::joined(phis, from, regs, n) == Some(r),
        forall|k: int| 0 <= k < n ==> r[#[trigger] ps[k]] == regs[vars[k]],
        forall|u: VarId| !ps.contains(u) ==> #[trigger] r[u] == regs[u],
    decreases n,
{
    if n <= 0 {
        regs
    } else {
        let r0 = joined_sets(phis, from, regs, ps, vars, n - 1);
        assert(phis[n - 1] is Phi && phis[n - 1]->Phi_0 == ps[n - 1]);
        let r = r0.insert(ps[n - 1], regs[vars[n - 1]]);
        assert forall|k: int| 0 <= k < n implies r[#[trigger] ps[k]] == regs[vars[k]] by {
            if k < n - 1 {
                assert(ps[k] != ps[n - 1]);
            }
        }
        assert(ps.contains(ps[n - 1]));
        r
    }
}

proof fn passed_sets(phis: Seq<InstView>, args: Seq<VarId>, regs: Regs, ps: Seq<VarId>, n: int) -> (r: Regs)
    requires
        has_phis(phis, ps),
        args.len() == ps.len(),
        0 <= n <= ps.len(),
    ensures
        meaning::passed(phis, args, regs, n) == Some(r),
        forall|k: int| 0 <= k < n ==> r[#[trigger] ps[k]] == regs[args[k]],
        forall|u: VarId| !ps.contains(u) ==> #[trigger] r[u] == regs[u],
    decreases n,
{
    if n <= 0 {
        regs
    } else {
        let r0 = passed_sets(phis, args, regs, ps, n - 1);
        assert(phis[n - 1] is Phi && phis[n - 1]->Phi_0 == ps[n - 1]);
        let r = r0.insert(ps[n - 1], regs[args[n - 1]]);
        assert forall|k: int| 0 <= k < n implies r[#[trigger] ps[k]] == regs[args[k]] by {
            if k < n - 1 {
                assert(ps[k] != ps[n - 1]);
            }
        }
        assert(ps.contains(ps[n - 1]));
        r
    }
}

/// The end of a block leads to block `to`.
spec fn leads(l: Lang, term: TermView, regs: Regs, to: BlockId) -> bool {
    match term {
        TermView::Jump(b) => b == to,
        TermView::Branch(c, yes, no) => to == (if (l.truthy)(regs[c]) { yes } else { no }),
        _ => false,
    }
}

/// A block without phis is entered with everything as it was.
proof fn enter_plain(l: Lang, code: Code, s: LowerView, term: TermView, n: LowerView, regs: Regs, w: int)
    requires
        all_kept(code, anf::finish(s, term).blocks),
        leads(l, term, regs, n.current),
        n.insts.len() == 0,
        fits(code, n),
    ensures
        meaning::reaches(l, code, here(s, regs, w), here(n, regs, w)),
{
    finish_fits(code, s, term);
    reach_one(l, code, here(s, regs, w));
    assert(code[n.current].phis.len() == 0);
    assert(meaning::joined(code[n.current].phis, s.current, regs, 0) == Some(regs));
}

/// A block with one phi is entered with what the phi takes.
proof fn enter_join(l: Lang, code: Code, s: LowerView, term: TermView, j: LowerView, d: VarId, es: Seq<(BlockId, VarId)>, v: VarId, t: LowerView, regs: Regs, w: int)
    requires
        all_kept(code, anf::finish(s, term).blocks),
        leads(l, term, regs, j.current),
        j.insts.len() == 0,
        t == anf::emit(LowerView { next_var: t.next_var, ..j }, InstView::Phi(d, es)),
        fits(code, t),
        meaning::taken(es, s.current, 0) == Some(v),
    ensures
        meaning::reaches(l, code, here(s, regs, w), here(t, regs.insert(d, regs[v]), w)),
{
    finish_fits(code, s, term);
    reach_one(l, code, here(s, regs, w));
    let phi = InstView::Phi(d, es);
    select_push(j.insts, phi, true);
    select_push(j.insts, phi, false);
    let phis = code[t.current].phis;
    assert(anf::select(t.insts, true)[0] == phi);
    assert(is_fed(phi, phis[0]));
    assert(phis.len() == 1);
    taken_still(es, phis[0]->Phi_1, s.current, 0);
    assert(meaning::joined(phis, s.current, regs, 0) == Some(regs));
    assert(meaning::joined(phis, s.current, regs, 1) == Some(regs.insert(d, regs[v])));
}


proof fn outermost_at(env: Env, name: Seq<char>, i: int, at: int)
    requires
        0 <= i <= at < env.len(),
        forall|k: int| i <= k < at ==> !(#[trigger] env[k]).dom().contains(name),
        env[at].dom().contains(name),
    ensures
        meaning::outermost(env, name, i) == Some(env[at][name]),
    decreases at - i,
{
    if i < at {
        outermost_at(env, name, i + 1, at);
    }
}

proof fn outermost_is_somewhere(env: Env, name: Seq<char>, i: int)
    requires
        0 <= i <= env.len(),
    ensures
        meaning::outermost(env, name, i) is Some ==> exists|k: int| i <= k < env.len() && (#[trigger] env[k]).dom().contains(name),
    decreases env.len() - i,
{
    if i < env.len() && !env[i].dom().contains(name) {
        outermost_is_somewhere(env, name, i + 1);
    }
}

/// The names caught so far: those of the scopes before `i`, and of scope `i` those before `j`.
spec fn catches(env: Env, locals: Seq<Seq<(Seq<char>, VarId)>>, regs: Regs, names: Seq<Seq<char>>, vars: Seq<VarId>, i: int, j: int) -> bool {
    &&& names.len() == vars.len()
    &&& forall|k: int| 0 <= k < names.len() ==> meaning::outermost(env, #[trigger] names[k], 0) == Some(regs[vars[k]])
    &&& forall|a: int, b: int| 0 <= a < i && 0 <= b < locals[a].len() ==> names.contains((#[trigger] locals[a][b]).0)
    &&& forall|b: int| 0 <= b < j ==> names.contains((#[trigger] locals[i][b]).0)
}

proof fn scope_is_caught(env: Env, locals: Seq<Seq<(Seq<char>, VarId)>>, regs: Regs, i: int, j: int, names: Seq<Seq<char>>, vars: Seq<VarId>)
    requires
        shows(env, locals, regs),
        0 <= i < locals.len(),
        0 <= j <= locals[i].len(),
        catches(env, locals, regs, names, vars, i, j),
    ensures
        ({
            let (n, v) = anf::capture_scope(locals[i], j, names, vars);
            catches(env, locals, regs, n, v, i, locals[i].len() as int)
        }),
    decreases locals[i].len() - j,
{
    let scope = locals[i];
    if j < scope.len() {
        let name = scope[j].0;
        assert(is_scope(env[i], scope, regs));
        if names.contains(name) {
            scope_is_caught(env, locals, regs, i, j + 1, names, vars);
        } else {
            let n = names.push(name);
            let v = vars.push(scope[j].1);
            assert forall|k: int| 0 <= k < i implies !(#[trigger] env[k]).dom().contains(name) by {
                if env[k].dom().contains(name) {
                    assert(is_scope(env[k], locals[k], regs));
                    let b = choose|b: int| 0 <= b < locals[k].len() && (#[trigger] locals[k][b]).0 == name;
                    assert(names.contains(locals[k][b].0));
                }
            }
            outermost_at(env, name, 0, i);
            assert(n[names.len() as int] == name);
            assert forall|x: Seq<char>| names.contains(x) implies #[trigger] n.contains(x) by {
                let k = names.index_of(x);
                assert(n[k] == x);
            }
            assert forall|k: int| 0 <= k < n.len() implies meaning::outermost(env, #[trigger] n[k], 0) == Some(regs[v[k]]) by {
                if k < names.len() {
                    assert(n[k] == names[k]);
                }
            }
            scope_is_caught(env, locals, regs, i, j + 1, n, v);
        }
    }
}

proof fn all_are_caught(env: Env, locals: Seq<Seq<(Seq<char>, VarId)>>, regs: Regs, i: int, names: Seq<Seq<char>>, vars: Seq<VarId>)
    requires
        shows(env, locals, regs),
        0 <= i <= locals.len(),
        catches(env, locals, regs, names, vars, i, 0),
    ensures
        ({
            let (n, v) = anf::capture_all(locals, i, names, vars);
            catches(env, locals, regs, n, v, locals.len() as int, 0)
        }),
    decreases locals.len() - i,
{
    if i < locals.len() {
        scope_is_caught(env, locals, regs, i, 0, names, vars);
        let (n, v) = anf::capture_scope(locals[i], 0, names, vars);
        assert forall|a: int, b: int| 0 <= a < i + 1 && 0 <= b < locals[a].len() implies n.contains((#[trigger] locals[a][b]).0) by {}
        all_are_caught(env, locals, regs, i + 1, n, v);
    }
}

proof fn closure_runs(l: Lang, code: Code, s: LowerView, name: Option<Seq<char>>, fs: Seq<Form>, from: int, env: Env, regs: Regs, w: int) -> (r: Regs)
    requires
        is_built(code, anf::lower_closure(s, name, fs, from)),
        ready(code, s, env, regs),
    ensures
        runs(l, code, s, anf::lower_closure(s, name, fs, from), regs, w, meaning::closure(l, env, name, fs, from, w), r),
{
    closure_fits(code, s, name, fs, from);
    let f = closure_inst(s, name, fs, from);
    let (names, vars) = anf::capture_all(s.locals, 0, Seq::empty(), Seq::empty());
    all_are_caught(env, s.locals, regs, 0, Seq::empty(), Seq::empty());
    let caught = Map::new(|n: Seq<char>| names.contains(n), |n: Seq<char>| regs[vars[names.index_of(n)]]);
    assert forall|n: Seq<char>| names.contains(n) <==> #[trigger] meaning::outermost(env, n, 0) is Some by {
        if names.contains(n) {
            assert(names[names.index_of(n)] == n);
        }
        outermost_is_somewhere(env, n, 0);
        if meaning::outermost(env, n, 0) is Some {
            let k = choose|k: int| 0 <= k < env.len() && (#[trigger] env[k]).dom().contains(n);
            assert(is_scope(env[k], s.locals[k], regs));
            let b = choose|b: int| 0 <= b < s.locals[k].len() && (#[trigger] s.locals[k][b]).0 == n;
            assert(names.contains(s.locals[k][b].0));
        }
    }
    assert forall|n: Seq<char>| names.contains(n) implies #[trigger] caught[n] == meaning::captured(env)[n] by {
        assert(names[names.index_of(n)] == n);
    }
    assert(caught =~= meaning::captured(env));
    let t = TemplateView {
        name,
        arity_fn_names: Seq::empty(),
        param_counts: Seq::empty(),
        is_variadic: Seq::empty(),
        capture_names: Seq::empty(),
        body_forms: form::forms_view(fs.subrange(from, fs.len() as int)),
    };
    act_runs(l, code, s, f, Act::Closure(t, meaning::captured(env)), regs, w)
}

proof fn pairs_are_read(regs: Regs, vs: Seq<VarId>)
    ensures
        Seq::new(anf::pair_up(vs).len(), |i: int| (regs[anf::pair_up(vs)[i].0], regs[anf::pair_up(vs)[i].1])) == meaning::in_pairs(meaning::read(regs, vs)),
{
    assert(Seq::new(anf::pair_up(vs).len(), |i: int| (regs[anf::pair_up(vs)[i].0], regs[anf::pair_up(vs)[i].1])) =~= meaning::in_pairs(meaning::read(regs, vs)));
}

/// A collection is made of what was built for its parts.
proof fn collection_runs(l: Lang, code: Code, s: LowerView, s1: LowerView, vs: Seq<VarId>, f: spec_fn(VarId) -> InstView, regs: Regs, w: int, o: Outcome<Seq<int>>, r1: Regs) -> (r: Regs)
    requires
        runs_all(l, code, s, s1, vs, regs, w, o, r1),
        is_built(code, anf::emit_value(s1, f)),
        s.next_var <= s1.next_var,
        s.headers == s1.headers,
        forall|d: VarId| #[trigger] f(d) == InstView::AllocVector(d, vs) || f(d) == InstView::AllocList(d, vs) || f(d) == InstView::AllocSet(d, vs) || f(d) == InstView::AllocMap(d, anf::pair_up(vs)) || f(d) is CallKnown && f(d) == InstView::CallKnown(d, f(d)->CallKnown_1, vs),
    ensures
        ({
            let d = VarId(s1.next_var);
            let xs = o->Done_0;
            let w1 = o->Done_1;
            let a = match f(d) {
                InstView::AllocVector(_, _) => Act::Vector(xs),
                InstView::AllocList(_, _) => Act::List(xs),
                InstView::AllocSet(_, _) => Act::HashSet(xs),
                InstView::AllocMap(_, _) => Act::Dict(meaning::in_pairs(xs)),
                InstView::CallKnown(_, kf, _) => Act::Known(kf, xs),
                _ => Act::Vector(xs),
            };
            runs(l, code, s, anf::emit_value(s1, f), regs, w, if o is Done { meaning::performed(l, a, w1) } else { meaning::left(o) }, r)
        }),
{
    let d = VarId(s1.next_var);
    match o {
        Outcome::Done(xs, w1) => {
            let a = match f(d) {
                InstView::AllocVector(_, _) => Act::Vector(xs),
                InstView::AllocList(_, _) => Act::List(xs),
                InstView::AllocSet(_, _) => Act::HashSet(xs),
                InstView::AllocMap(_, _) => Act::Dict(meaning::in_pairs(xs)),
                InstView::CallKnown(_, kf, _) => Act::Known(kf, xs),
                _ => Act::Vector(xs),
            };
            pairs_are_read(r1, vs);
            let r = act_runs(l, code, s1, f, a, r1, w1);
            let (t, v) = anf::emit_value(s1, f)->Ok_0;
            go_on(l, code, s, s1, t, v, regs, w, r1, w1, meaning::performed(l, a, w1), r);
            r
        },
        _ => r1,
    }
}

proof fn quote_runs(l: Lang, code: Code, s: LowerView, f: Form, regs: Regs, w: int) -> (r: Regs)
    requires
        is_built(code, anf::lower_quote(s, f)),
        tidy(s),
    ensures
        runs(l, code, s, anf::lower_quote(s, f), regs, w, meaning::quoted(l, f, w), r),
    decreases f, 0int,
{
    match anf::literal(f.kind) {
        Some(c) => const_runs(l, code, s, c, regs, w),
        None => match f.kind {
            FormKind::Symbol(t) => const_runs(l, code, s, ConstView::Symbol(t@), regs, w),
            FormKind::Vector(fs) => {
                let (s1, vs) = anf::quote_all(s, fs@, 0, Seq::empty())->Ok_0;
                let make = |dst: VarId| InstView::AllocVector(dst, vs);
                value_fits(code, s1, make);
                quote_all_fits(code, s, fs@, 0, Seq::empty());
                assert(Seq::<int>::empty() =~= meaning::read(regs, Seq::empty()));
                let r1 = quote_all_runs(l, code, s, fs@, 0, Seq::empty(), regs, w);
                collection_runs(l, code, s, s1, vs, make, regs, w, meaning::all_quoted(l, fs@, 0, Seq::empty(), w), r1)
            },
            FormKind::List(fs) => {
                let (s1, vs) = anf::quote_all(s, fs@, 0, Seq::empty())->Ok_0;
                let make = |dst: VarId| InstView::AllocList(dst, vs);
                value_fits(code, s1, make);
                quote_all_fits(code, s, fs@, 0, Seq::empty());
                assert(Seq::<int>::empty() =~= meaning::read(regs, Seq::empty()));
                let r1 = quote_all_runs(l, code, s, fs@, 0, Seq::empty(), regs, w);
                collection_runs(l, code, s, s1, vs, make, regs, w, meaning::all_quoted(l, fs@, 0, Seq::empty(), w), r1)
            },
            FormKind::HashSet(fs) => {
                let (s1, vs) = anf::quote_all(s, fs@, 0, Seq::empty())->Ok_0;
                let make = |dst: VarId| InstView::AllocSet(dst, vs);
                value_fits(code, s1, make);
                quote_all_fits(code, s, fs@, 0, Seq::empty());
                assert(Seq::<int>::empty() =~= meaning::read(regs, Seq::empty()));
                let r1 = quote_all_runs(l, code, s, fs@, 0, Seq::empty(), regs, w);
                collection_runs(l, code, s, s1, vs, make, regs, w, meaning::all_quoted(l, fs@, 0, Seq::empty(), w), r1)
            },
            FormKind::Dict(fs) => {
                let (s1, vs) = anf::quote_all(s, fs@, 0, Seq::empty())->Ok_0;
                let make = |dst: VarId| InstView::AllocMap(dst, anf::pair_up(vs));
                value_fits(code, s1, make);
                quote_all_fits(code, s, fs@, 0, Seq::empty());
                assert(Seq::<int>::empty() =~= meaning::read(regs, Seq::empty()));
                let r1 = quote_all_runs(l, code, s, fs@, 0, Seq::empty(), regs, w);
                collection_runs(l, code, s, s1, vs, make, regs, w, meaning::all_quoted(l, fs@, 0, Seq::empty(), w), r1)
            },
            _ => regs,
        },
    }
}

/// One more value behind those in hand, all of them as they are later.
proof fn read_push(regs: Regs, r: Regs, vs: Seq<VarId>, v: VarId, n: u32)
    requires
        all_below(vs, n),
        alike(regs, r, n),
    ensures
        meaning::read(r, vs.push(v)) == meaning::read(regs, vs).push(r[v]),
        meaning::read(r, vs) == meaning::read(regs, vs),
{
    assert forall|k: int| 0 <= k < vs.len() implies r[#[trigger] vs[k]] == regs[vs[k]] by {}
    assert(meaning::read(r, vs.push(v)) =~= meaning::read(regs, vs).push(r[v]));
    assert(meaning::read(r, vs) =~= meaning::read(regs, vs));
}

proof fn quote_all_runs(l: Lang, code: Code, s: LowerView, fs: Seq<Form>, i: int, done: Seq<VarId>, regs: Regs, w: int) -> (r: Regs)
    requires
        anf::quote_all(s, fs, i, done) is Ok,
        fits(code, anf::quote_all(s, fs, i, done)->Ok_0.0),
        all_below(done, s.next_var),
        tidy(s),
    ensures
        ({
            let (t, vs) = anf::quote_all(s, fs, i, done)->Ok_0;
            runs_all(l, code, s, t, vs, regs, w, meaning::all_quoted(l, fs, i, meaning::read(regs, done), w), r)
        }),
    decreases fs, fs.len() - i,
{
    if i < 0 || i >= fs.len() {
        reach_self(l, code, here(s, regs, w));
        regs
    } else {
        let (s1, v) = anf::lower_quote(s, fs[i])->Ok_0;
        let (t, vs) = anf::quote_all(s, fs, i, done)->Ok_0;
        quote_fits(code, s, fs[i]);
        quote_all_fits(code, s1, fs, i + 1, done.push(v));
        let r1 = quote_runs(l, code, s, fs[i], regs, w);
        match meaning::quoted(l, fs[i], w) {
            Outcome::Done(x, w1) => {
                read_push(regs, r1, done, v, s.next_var);
                later_is_tidy(s, s1);
                let r = quote_all_runs(l, code, s1, fs, i + 1, done.push(v), r1, w1);
                let o = meaning::all_quoted(l, fs, i + 1, meaning::read(r1, done.push(v)), w1);
                all_go_on(l, code, s, s1, t, vs, regs, w, r1, w1, o, r);
                r
            },
            _ => r1,
        }
    }
}

proof fn all_go_on(l: Lang, code: Code, s: LowerView, s1: LowerView, t: LowerView, vs: Seq<VarId>, regs: Regs, w: int, r1: Regs, w1: int, o: Outcome<Seq<int>>, r: Regs)
    requires
        goes(l, code, s, s1, regs, w, r1, w1),
        s.next_var <= s1.next_var,
        s.headers == s1.headers,
        runs_all(l, code, s1, t, vs, r1, w1, o, r),
    ensures
        runs_all(l, code, s, t, vs, regs, w, o, r),
{
    escape_on(l, code, s, s1, regs, w, r1, w1, meaning::left(o), r);
    match o {
        Outcome::Done(x, w2) => reach_on(l, code, here(s, regs, w), here(s1, r1, w1), here(t, r, w2)),
        _ => {},
    }
}

proof fn form_runs(l: Lang, code: Code, s: LowerView, f: Form, env: Env, regs: Regs, w: int, fuel: nat) -> (r: Regs)
    requires
        is_built(code, anf::lower_form(s, f)),
        ready(code, s, env, regs),
    ensures
        runs(l, code, s, anf::lower_form(s, f), regs, w, meaning::eval(l, s.ns, env, f, w, fuel), r),
    decreases fuel, f, 0int, 0int,
{
    let none: Seq<VarId> = Seq::empty();
    assert(Seq::<int>::empty() =~= meaning::read(regs, none));
    match anf::literal(f.kind) {
        Some(c) => const_runs(l, code, s, c, regs, w),
        None => match f.kind {
            FormKind::Symbol(t) => {
                sees(env, s.locals, regs, t@, s.locals.len() as int);
                match anf::lookup(s.locals, t@, s.locals.len() as int) {
                    Some(v) => {
                        reach_self(l, code, here(s, regs, w));
                        regs
                    },
                    None => match text::before_last(t@, '/') {
                        Some(of) => act_runs(l, code, s, |dst: VarId| InstView::LoadGlobal(dst, of, text::after_last(t@, '/')), Act::Global(of, text::after_last(t@, '/')), regs, w),
                        None => act_runs(l, code, s, |dst: VarId| InstView::LoadGlobal(dst, s.ns, t@), Act::Global(s.ns, t@), regs, w),
                    },
                }
            },
            FormKind::Vector(fs) => {
                let (s1, vs) = anf::lower_all(s, fs@, 0, none)->Ok_0;
                let make = |dst: VarId| InstView::AllocVector(dst, vs);
                value_fits(code, s1, make);
                all_fits(code, s, fs@, 0, none);
                let r1 = all_run(l, code, s, fs@, 0, none, env, regs, w, fuel);
                collection_runs(l, code, s, s1, vs, make, regs, w, meaning::eval_all(l, s.ns, env, fs@, 0, Seq::empty(), w, fuel), r1)
            },
            FormKind::Dict(fs) => {
                let (s1, vs) = anf::lower_all(s, fs@, 0, none)->Ok_0;
                let make = |dst: VarId| InstView::AllocMap(dst, anf::pair_up(vs));
                value_fits(code, s1, make);
                all_fits(code, s, fs@, 0, none);
                let r1 = all_run(l, code, s, fs@, 0, none, env, regs, w, fuel);
                collection_runs(l, code, s, s1, vs, make, regs, w, meaning::eval_all(l, s.ns, env, fs@, 0, Seq::empty(), w, fuel), r1)
            },
            FormKind::HashSet(fs) => {
                let (s1, vs) = anf::lower_all(s, fs@, 0, none)->Ok_0;
                let make = |dst: VarId| InstView::AllocSet(dst, vs);
                value_fits(code, s1, make);
                all_fits(code, s, fs@, 0, none);
                let r1 = all_run(l, code, s, fs@, 0, none, env, regs, w, fuel);
                collection_runs(l, code, s, s1, vs, make, regs, w, meaning::eval_all(l, s.ns, env, fs@, 0, Seq::empty(), w, fuel), r1)
            },
            FormKind::List(fs) => {
                if fs@.len() == 0 {
                    act_runs(l, code, s, |dst: VarId| InstView::AllocList(dst, none), Act::List(Seq::empty()), regs, w)
                } else {
                    list_runs(l, code, s, fs@, env, regs, w, fuel)
                }
            },
            FormKind::Quote(inner) => quote_runs(l, code, s, *inner, regs, w),
            FormKind::Deref(inner) => {
                let (s1, v) = anf::lower_form(s, *inner)->Ok_0;
                let make = |dst: VarId| InstView::Deref(dst, v);
                value_fits(code, s1, make);
                form_fits(code, s, *inner);
                let r1 = form_runs(l, code, s, *inner, env, regs, w, fuel);
                match meaning::eval(l, s.ns, env, *inner, w, fuel) {
                    Outcome::Done(x, w1) => {
                        let r = act_runs(l, code, s1, make, Act::Deref(x), r1, w1);
                        let (t, d) = anf::emit_value(s1, make)->Ok_0;
                        go_on(l, code, s, s1, t, d, regs, w, r1, w1, meaning::performed(l, Act::Deref(x), w1), r);
                        r
                    },
                    _ => r1,
                }
            },
            FormKind::Meta(_, inner) => form_runs(l, code, s, *inner, env, regs, w, fuel),
            _ => regs,
        },
    }
}

proof fn all_run(l: Lang, code: Code, s: LowerView, fs: Seq<Form>, i: int, done: Seq<VarId>, env: Env, regs: Regs, w: int, fuel: nat) -> (r: Regs)
    requires
        anf::lower_all(s, fs, i, done) is Ok,
        fits(code, anf::lower_all(s, fs, i, done)->Ok_0.0),
        all_below(done, s.next_var),
        ready(code, s, env, regs),
    ensures
        ({
            let (t, vs) = anf::lower_all(s, fs, i, done)->Ok_0;
            runs_all(l, code, s, t, vs, regs, w, meaning::eval_all(l, s.ns, env, fs, i, meaning::read(regs, done), w, fuel), r)
        }),
    decreases fuel, fs, fs.len() - i, 0int,
{
    if i < 0 || i >= fs.len() {
        reach_self(l, code, here(s, regs, w));
        regs
    } else {
        let (s1, v) = anf::lower_form(s, fs[i])->Ok_0;
        let (t, vs) = anf::lower_all(s, fs, i, done)->Ok_0;
        form_fits(code, s, fs[i]);
        all_fits(code, s1, fs, i + 1, done.push(v));
        let r1 = form_runs(l, code, s, fs[i], env, regs, w, fuel);
        match meaning::eval(l, s.ns, env, fs[i], w, fuel) {
            Outcome::Done(x, w1) => {
                read_push(regs, r1, done, v, s.next_var);
                ready_later(code, s, s1, env, regs, r1);
                let r = all_run(l, code, s1, fs, i + 1, done.push(v), env, r1, w1, fuel);
                let o = meaning::eval_all(l, s.ns, env, fs, i + 1, meaning::read(r1, done.push(v)), w1, fuel);
                all_go_on(l, code, s, s1, t, vs, regs, w, r1, w1, o, r);
                r
            },
            _ => r1,
        }
    }
}

proof fn rest_runs(l: Lang, code: Code, s: LowerView, fs: Seq<Form>, i: int, last: VarId, env: Env, regs: Regs, w: int, fuel: nat) -> (r: Regs)
    requires
        0 <= i < fs.len(),
        is_built(code, anf::lower_rest(s, fs, i, last)),
        ready(code, s, env, regs),
    ensures
        runs(l, code, s, anf::lower_rest(s, fs, i, last), regs, w, meaning::eval_body(l, s.ns, env, fs, i, w, fuel), r),
    decreases fuel, fs, fs.len() - i, 0int,
{
    let (s1, v) = anf::lower_form(s, fs[i])->Ok_0;
    let (t, z) = anf::lower_rest(s, fs, i, last)->Ok_0;
    form_fits(code, s, fs[i]);
    rest_fits(code, s1, fs, i + 1, v);
    let r1 = form_runs(l, code, s, fs[i], env, regs, w, fuel);
    if i + 1 == fs.len() {
        assert(anf::lower_rest(s1, fs, i + 1, v) == Ok::<(LowerView, VarId), LowerErrorView>((s1, v)));
        r1
    } else {
        match meaning::eval(l, s.ns, env, fs[i], w, fuel) {
            Outcome::Done(x, w1) => {
                ready_later(code, s, s1, env, regs, r1);
                let r = rest_runs(l, code, s1, fs, i + 1, v, env, r1, w1, fuel);
                go_on(l, code, s, s1, t, z, regs, w, r1, w1, meaning::eval_body(l, s.ns, env, fs, i + 1, w1, fuel), r);
                r
            },
            _ => r1,
        }
    }
}

proof fn body_runs(l: Lang, code: Code, s: LowerView, fs: Seq<Form>, a: int, env: Env, regs: Regs, w: int, fuel: nat) -> (r: Regs)
    requires
        is_built(code, anf::lower_body(s, fs, a)),
        ready(code, s, env, regs),
    ensures
        runs(l, code, s, anf::lower_body(s, fs, a), regs, w, meaning::eval_body(l, s.ns, env, fs, a, w, fuel), r),
    decreases fuel, fs, fs.len() - a, 1int,
{
    if a < 0 || a >= fs.len() {
        const_runs(l, code, s, ConstView::Nil, regs, w)
    } else {
        rest_runs(l, code, s, fs, a, VarId(0), env, regs, w, fuel)
    }
}

proof fn or_nil_runs(l: Lang, code: Code, s: LowerView, fs: Seq<Form>, a: int, env: Env, regs: Regs, w: int, fuel: nat) -> (r: Regs)
    requires
        is_built(code, anf::lower_or_nil(s, fs, a)),
        ready(code, s, env, regs),
    ensures
        runs(l, code, s, anf::lower_or_nil(s, fs, a), regs, w, meaning::eval_or_nil(l, s.ns, env, fs, a, w, fuel), r),
    decreases fuel, fs, 0int, 0int,
{
    if 0 <= a < fs.len() {
        form_runs(l, code, s, fs[a], env, regs, w, fuel)
    } else {
        const_runs(l, code, s, ConstView::Nil, regs, w)
    }
}

proof fn list_runs(l: Lang, code: Code, s: LowerView, fs: Seq<Form>, env: Env, regs: Regs, w: int, fuel: nat) -> (r: Regs)
    requires
        is_built(code, anf::lower_list(s, fs)),
        ready(code, s, env, regs),
    ensures
        runs(l, code, s, anf::lower_list(s, fs), regs, w, meaning::eval_list(l, s.ns, env, fs, w, fuel), r),
    decreases fuel, fs, fs.len() as int, 2int,
{
    match fs[0].kind {
        FormKind::Symbol(name) => {
            let t = name@;
            if t == "if"@ {
                if_runs(l, code, s, fs, env, regs, w, fuel)
            } else if t == "do"@ {
                body_runs(l, code, s, fs, 1, env, regs, w, fuel)
            } else if t == "let"@ || t == "let*"@ {
                let_runs(l, code, s, fs, env, regs, w, fuel)
            } else if t == "loop"@ || t == "loop*"@ {
                loop_runs(l, code, s, fs, env, regs, w, fuel)
            } else if t == "recur"@ {
                recur_runs(l, code, s, fs, env, regs, w, fuel)
            } else if t == "def"@ {
                def_runs(l, code, s, fs, env, regs, w, fuel)
            } else if t == "fn"@ || t == "fn*"@ {
                match fs[1].kind {
                    FormKind::Symbol(own) => closure_runs(l, code, s, Some(own@), fs, 2, env, regs, w),
                    _ => closure_runs(l, code, s, None, fs, 1, env, regs, w),
                }
            } else if t == "quote"@ {
                quote_runs(l, code, s, fs[1], regs, w)
            } else if t == "throw"@ {
                throw_runs(l, code, s, fs, env, regs, w, fuel)
            } else if t == "set!"@ {
                set_runs(l, code, s, fs, env, regs, w, fuel)
            } else if anf::is_module_level(t) || anf::is_not_lowered(t) {
                regs
            } else if t == "defn"@ {
                defn_runs(l, code, s, fs, env, regs, w)
            } else if t == "defmacro"@ || t == "defonce"@ {
                regs
            } else if t == "and"@ {
                and_runs(l, code, s, fs, 1, env, regs, w, fuel)
            } else if t == "or"@ {
                or_runs(l, code, s, fs, 1, env, regs, w, fuel)
            } else {
                call_runs(l, code, s, fs, env, regs, w, fuel)
            }
        },
        _ => call_runs(l, code, s, fs, env, regs, w, fuel),
    }
}

proof fn call_runs(l: Lang, code: Code, s: LowerView, fs: Seq<Form>, env: Env, regs: Regs, w: int, fuel: nat) -> (r: Regs)
    requires
        fs.len() > 0,
        is_built(code, anf::lower_call(s, fs)),
        ready(code, s, env, regs),
    ensures
        runs(l, code, s, anf::lower_call(s, fs), regs, w, meaning::eval_call(l, s.ns, env, fs, w, fuel), r),
    decreases fuel, fs, fs.len() as int, 1int,
{
    let none: Seq<VarId> = Seq::empty();
    assert(Seq::<int>::empty() =~= meaning::read(regs, none));
    let known = match fs[0].kind {
        FormKind::Symbol(name) => anf::known_fn(name@),
        _ => None,
    };
    match known {
        Some(kf) => {
            let (s1, vs) = anf::lower_all(s, fs, 1, none)->Ok_0;
            let make = |dst: VarId| InstView::CallKnown(dst, kf, vs);
            value_fits(code, s1, make);
            all_fits(code, s, fs, 1, none);
            let r1 = all_run(l, code, s, fs, 1, none, env, regs, w, fuel);
            collection_runs(l, code, s, s1, vs, make, regs, w, meaning::eval_all(l, s.ns, env, fs, 1, Seq::empty(), w, fuel), r1)
        },
        None => {
            let (s1, callee) = anf::lower_form(s, fs[0])->Ok_0;
            let (s2, vs) = anf::lower_all(s1, fs, 1, none)->Ok_0;
            let make = |dst: VarId| InstView::Call(dst, callee, vs);
            let (t, d) = anf::emit_value(s2, make)->Ok_0;
            value_fits(code, s2, make);
            all_fits(code, s1, fs, 1, none);
            form_fits(code, s, fs[0]);
            let r1 = form_runs(l, code, s, fs[0], env, regs, w, fuel);
            match meaning::eval(l, s.ns, env, fs[0], w, fuel) {
                Outcome::Done(x, w1) => {
                    assert(Seq::<int>::empty() =~= meaning::read(r1, none));
                    ready_later(code, s, s1, env, regs, r1);
                    let r2 = all_run(l, code, s1, fs, 1, none, env, r1, w1, fuel);
                    let o = meaning::eval_all(l, s.ns, env, fs, 1, Seq::empty(), w1, fuel);
                    all_go_on(l, code, s, s1, s2, vs, regs, w, r1, w1, o, r2);
                    match o {
                        Outcome::Done(xs, w2) => {
                            assert(r2[callee] == r1[callee]);
                            let r = act_runs(l, code, s2, make, Act::Call(x, xs), r2, w2);
                            go_on(l, code, s, s2, t, d, regs, w, r2, w2, meaning::performed(l, Act::Call(x, xs), w2), r);
                            r
                        },
                        _ => r2,
                    }
                },
                _ => r1,
            }
        },
    }
}

proof fn def_runs(l: Lang, code: Code, s: LowerView, fs: Seq<Form>, env: Env, regs: Regs, w: int, fuel: nat) -> (r: Regs)
    requires
        is_built(code, anf::lower_def(s, fs)),
        ready(code, s, env, regs),
    ensures
        runs(l, code, s, anf::lower_def(s, fs), regs, w, meaning::eval_def(l, s.ns, env, fs, w, fuel), r),
    decreases fuel, fs, fs.len() as int, 1int,
{
    let name = anf::def_name(fs[1].kind)->Some_0;
    let (s1, v) = anf::lower_or_nil(s, fs, 2)->Ok_0;
    let make = |dst: VarId| InstView::DefVar(dst, s1.ns, name, v);
    value_fits(code, s1, make);
    or_nil_fits(code, s, fs, 2);
    let r1 = or_nil_runs(l, code, s, fs, 2, env, regs, w, fuel);
    match meaning::eval_or_nil(l, s.ns, env, fs, 2, w, fuel) {
        Outcome::Done(x, w1) => {
            let a = Act::Define(s.ns, name, x);
            let r = act_runs(l, code, s1, make, a, r1, w1);
            let (t, d) = anf::emit_value(s1, make)->Ok_0;
            go_on(l, code, s, s1, t, d, regs, w, r1, w1, meaning::performed(l, a, w1), r);
            r
        },
        _ => r1,
    }
}

proof fn defn_runs(l: Lang, code: Code, s: LowerView, fs: Seq<Form>, env: Env, regs: Regs, w: int) -> (r: Regs)
    requires
        is_built(code, anf::lower_defn(s, fs)),
        ready(code, s, env, regs),
    ensures
        runs(l, code, s, anf::lower_defn(s, fs), regs, w, meaning::eval_defn(l, s.ns, env, fs, w), r),
{
    match fs[1].kind {
        FormKind::Symbol(name) => {
            let from: int = if fs.len() > 3 && fs[2].kind is Str { 3 } else { 2 };
            let (s1, v) = anf::lower_closure(s, Some(name@), fs, from)->Ok_0;
            let make = |dst: VarId| InstView::DefVar(dst, s1.ns, name@, v);
            value_fits(code, s1, make);
            closure_fits(code, s, Some(name@), fs, from);
            let r1 = closure_runs(l, code, s, Some(name@), fs, from, env, regs, w);
            match meaning::closure(l, env, Some(name@), fs, from, w) {
                Outcome::Done(x, w1) => {
                    let a = Act::Define(s.ns, name@, x);
                    let r = act_runs(l, code, s1, make, a, r1, w1);
                    let (t, d) = anf::emit_value(s1, make)->Ok_0;
                    go_on(l, code, s, s1, t, d, regs, w, r1, w1, meaning::performed(l, a, w1), r);
                    r
                },
                _ => r1,
            }
        },
        _ => regs,
    }
}

proof fn throw_runs(l: Lang, code: Code, s: LowerView, fs: Seq<Form>, env: Env, regs: Regs, w: int, fuel: nat) -> (r: Regs)
    requires
        is_built(code, anf::lower_throw(s, fs)),
        ready(code, s, env, regs),
        fs.len() > 0,
        fs[0].kind is Symbol,
    ensures
        runs(l, code, s, anf::lower_throw(s, fs), regs, w, match meaning::eval(l, s.ns, env, fs[1], w, fuel) {
            Outcome::Done(v, w1) => Outcome::Thrown(v, w1),
            o => o,
        }, r),
    decreases fuel, fs, fs.len() as int, 1int,
{
    let (s1, v) = anf::lower_form(s, fs[1])->Ok_0;
    let s2 = anf::emit(s1, InstView::Throw(v));
    emit_fits(code, s1, InstView::Throw(v));
    dead_end_fits(code, s2, TermView::Unreachable);
    form_fits(code, s, fs[1]);
    let r1 = form_runs(l, code, s, fs[1], env, regs, w, fuel);
    match meaning::eval(l, s.ns, env, fs[1], w, fuel) {
        Outcome::Done(x, w1) => {
            reach_one(l, code, here(s1, r1, w1));
            reach_on(l, code, here(s, regs, w), here(s1, r1, w1), Point::Thrown(x, w1));
        },
        _ => {},
    }
    r1
}

proof fn set_runs(l: Lang, code: Code, s: LowerView, fs: Seq<Form>, env: Env, regs: Regs, w: int, fuel: nat) -> (r: Regs)
    requires
        is_built(code, anf::lower_set_bang(s, fs)),
        ready(code, s, env, regs),
    ensures
        runs(l, code, s, anf::lower_set_bang(s, fs), regs, w, meaning::eval_set(l, s.ns, env, fs, w, fuel), r),
    decreases fuel, fs, fs.len() as int, 1int,
{
    let (s1, var) = anf::lower_form(s, fs[1])->Ok_0;
    let (s2, v) = anf::lower_form(s1, fs[2])->Ok_0;
    let inst = InstView::SetBang(var, v);
    emit_fits(code, s2, inst);
    form_fits(code, s1, fs[2]);
    form_fits(code, s, fs[1]);
    let t = anf::emit(s2, inst);
    let r1 = form_runs(l, code, s, fs[1], env, regs, w, fuel);
    match meaning::eval(l, s.ns, env, fs[1], w, fuel) {
        Outcome::Done(x, w1) => {
            ready_later(code, s, s1, env, regs, r1);
            let r2 = form_runs(l, code, s1, fs[2], env, r1, w1, fuel);
            let o = meaning::eval(l, s.ns, env, fs[2], w1, fuel);
            go_on(l, code, s, s1, s2, v, regs, w, r1, w1, o, r2);
            match o {
                Outcome::Done(y, w2) => {
                    assert(r2[var] == r1[var]);
                    reach_one(l, code, here(s2, r2, w2));
                    match (l.act)(Act::Assign(x, y), w2) {
                        Reply::Gives(z, w3) => reach_on(l, code, here(s, regs, w), here(s2, r2, w2), here(t, r2, w3)),
                        Reply::Throws(z, w3) => reach_on(l, code, here(s, regs, w), here(s2, r2, w2), Point::Thrown(z, w3)),
                        Reply::Never => {},
                    }
                },
                _ => {},
            }
            r2
        },
        _ => r1,
    }
}

proof fn recur_runs(l: Lang, code: Code, s: LowerView, fs: Seq<Form>, env: Env, regs: Regs, w: int, fuel: nat) -> (r: Regs)
    requires
        fs.len() > 0,
        is_built(code, anf::lower_recur(s, fs)),
        ready(code, s, env, regs),
    ensures
        runs(l, code, s, anf::lower_recur(s, fs), regs, w, match meaning::eval_all(l, s.ns, env, fs, 1, Seq::empty(), w, fuel) {
            Outcome::Done(vs, w1) => Outcome::Recur(vs, w1),
            o => meaning::left(o),
        }, r),
    decreases fuel, fs, fs.len() as int, 1int,
{
    let none: Seq<VarId> = Seq::empty();
    assert(Seq::<int>::empty() =~= meaning::read(regs, none));
    let (s1, args) = anf::lower_all(s, fs, 1, none)->Ok_0;
    all_fits(code, s, fs, 1, none);
    let header = s1.headers.last().0;
    let s2 = LowerView { blocks: anf::feed_header(s1.blocks, header, s1.current, args), ..s1 };
    feed_fits(code, s1.blocks, header, s1.current, args);
    dead_end_fits(code, s2, TermView::RecurJump(header, args));
    assert(plain(s2) == plain(s1));
    let r1 = all_run(l, code, s, fs, 1, none, env, regs, w, fuel);
    match meaning::eval_all(l, s.ns, env, fs, 1, Seq::empty(), w, fuel) {
        Outcome::Done(vs, w1) => {
            let ps = s.headers.last().1;
            if vs.len() == ps.len() {
                let r = passed_sets(code[header].phis, args, r1, ps, ps.len() as int);
                reach_one(l, code, here(s1, r1, w1));
                reach_on(l, code, here(s, regs, w), here(s1, r1, w1), Point::At(header, 0, r, w1));
                assert(vs =~= meaning::read(r, ps));
                assert forall|u: VarId| u.0 < s.next_var && !ps.contains(u) implies #[trigger] r[u] == regs[u] by {
                    assert(r1[u] == regs[u]);
                }
                r
            } else {
                r1
            }
        },
        _ => r1,
    }
}

/// A name is bound to a value, and stands for it.
proof fn bind_shows(s: LowerView, name: Seq<char>, v: VarId, env: Env, regs: Regs)
    requires
        s.locals.len() > 0,
        tidy(s),
        shows(env, s.locals, regs),
    ensures
        shows(env.drop_last().push(env.last().insert(name, regs[v])), anf::bind(s, name, v).locals, regs),
{
    let scope = s.locals.last();
    let m = env.last();
    let i = anf::name_at(scope, name, 0);
    let t = anf::bind(s, name, v);
    let after = t.locals.last();
    let env2 = env.drop_last().push(m.insert(name, regs[v]));
    name_range(scope, name, 0);
    assert(is_scope(env[env.len() - 1], s.locals[s.locals.len() - 1], regs));
    assert(is_single(scope));
    assert(is_scope(m.insert(name, regs[v]), after, regs)) by {
        let m2 = m.insert(name, regs[v]);
        assert forall|j: int| 0 <= j < after.len() implies m2.dom().contains((#[trigger] after[j]).0) && m2[after[j].0] == regs[after[j].1] by {
            if j != i {
                assert(after[j] == scope[j]);
                if i < scope.len() {
                    assert(scope[i].0 != scope[j].0);
                } else {
                    assert(scope[j].0 != name);
                }
            }
        }
        assert forall|n: Seq<char>| #[trigger] m2.dom().contains(n) implies exists|j: int| 0 <= j < after.len() && (#[trigger] after[j]).0 == n by {
            if n == name {
                assert(after[if i < scope.len() { i } else { scope.len() as int }].0 == n);
            } else {
                assert(m.dom().contains(n));
                let j = choose|j: int| 0 <= j < scope.len() && (#[trigger] scope[j]).0 == n;
                assert(after[j] == scope[j]);
            }
        }
    }
    assert forall|k: int| 0 <= k < t.locals.len() implies is_scope(env2[k], #[trigger] t.locals[k], regs) by {
        if k < t.locals.len() - 1 {
            assert(t.locals[k] == s.locals[k]);
            assert(env2[k] == env[k]);
        }
    }
}

spec fn runs_env(l: Lang, code: Code, s: LowerView, t: LowerView, regs: Regs, w: int, o: Outcome<Env>, r: Regs) -> bool {
    match o {
        Outcome::Done(env, w1) => goes(l, code, s, t, regs, w, r, w1) && shows(env, t.locals, r),
        _ => escapes(l, code, s, regs, w, meaning::left(o), r),
    }
}

proof fn bindings_run(l: Lang, code: Code, s: LowerView, bs: Seq<Form>, i: int, env: Env, regs: Regs, w: int, fuel: nat) -> (r: Regs)
    requires
        s.locals.len() > 0,
        anf::lower_bindings(s, bs, i) is Ok,
        fits(code, anf::lower_bindings(s, bs, i)->Ok_0),
        ready(code, s, env, regs),
    ensures
        runs_env(l, code, s, anf::lower_bindings(s, bs, i)->Ok_0, regs, w, meaning::eval_bindings(l, s.ns, env, bs, i, w, fuel), r),
    decreases fuel, bs, bs.len() - i, 0int,
{
    if i < 0 || i + 1 >= bs.len() {
        reach_self(l, code, here(s, regs, w));
        regs
    } else {
        match bs[i].kind {
            FormKind::Symbol(name) => {
                let (s1, v) = anf::lower_form(s, bs[i + 1])->Ok_0;
                let s2 = anf::bind(s1, name@, v);
                let t = anf::lower_bindings(s, bs, i)->Ok_0;
                form_fits(code, s, bs[i + 1]);
                bind_fits(code, s1, name@, v);
                bindings_fit(code, s2, bs, i + 2);
                let r1 = form_runs(l, code, s, bs[i + 1], env, regs, w, fuel);
                match meaning::eval(l, s.ns, env, bs[i + 1], w, fuel) {
                    Outcome::Done(x, w1) => {
                        ready_later(code, s, s1, env, regs, r1);
                        bind_shows(s1, name@, v, env, r1);
                        let env2 = env.drop_last().push(env.last().insert(name@, x));
                        assert(plain(s2) == plain(s1));
                        let r = bindings_run(l, code, s2, bs, i + 2, env2, r1, w1, fuel);
                        let o = meaning::eval_bindings(l, s.ns, env2, bs, i + 2, w1, fuel);
                        escape_on(l, code, s, s2, regs, w, r1, w1, meaning::left(o), r);
                        match o {
                            Outcome::Done(e, w2) => reach_on(l, code, here(s, regs, w), here(s2, r1, w1), here(t, r, w2)),
                            _ => {},
                        }
                        r
                    },
                    _ => r1,
                }
            },
            _ => regs,
        }
    }
}

proof fn let_runs(l: Lang, code: Code, s: LowerView, fs: Seq<Form>, env: Env, regs: Regs, w: int, fuel: nat) -> (r: Regs)
    requires
        is_built(code, anf::lower_let(s, fs)),
        ready(code, s, env, regs),
    ensures
        runs(l, code, s, anf::lower_let(s, fs), regs, w, meaning::eval_let(l, s.ns, env, fs, w, fuel), r),
    decreases fuel, fs, fs.len() as int, 1int,
{
    match fs[1].kind {
        FormKind::Vector(bs) => {
            let p = anf::push_scope(s);
            let s1 = anf::lower_bindings(p, bs@, 0)->Ok_0;
            let (s2, v) = anf::lower_body(s1, fs, 2)->Ok_0;
            let t = anf::pop_scope(s2);
            push_scope_is_tidy(s);
            bindings_fit(code, p, bs@, 0);
            body_fits(code, s1, fs, 2);
            assert(plain(t) == plain(s2));
            assert(plain(p) == plain(s));
            let env1 = env.push(Map::empty());
            assert forall|k: int| 0 <= k < p.locals.len() implies is_scope(env1[k], #[trigger] p.locals[k], regs) by {
                if k < s.locals.len() {
                    assert(p.locals[k] == s.locals[k]);
                }
            }
            let r1 = bindings_run(l, code, p, bs@, 0, env1, regs, w, fuel);
            match meaning::eval_bindings(l, s.ns, env1, bs@, 0, w, fuel) {
                Outcome::Done(within, w1) => {
                    let r = body_runs(l, code, s1, fs, 2, within, r1, w1, fuel);
                    go_on(l, code, s, s1, t, v, regs, w, r1, w1, meaning::eval_body(l, s.ns, within, fs, 2, w1, fuel), r);
                    r
                },
                _ => r1,
            }
        },
        _ => regs,
    }
}

proof fn and_runs(l: Lang, code: Code, s: LowerView, fs: Seq<Form>, a: int, env: Env, regs: Regs, w: int, fuel: nat) -> (r: Regs)
    requires
        is_built(code, anf::lower_and(s, fs, a)),
        ready(code, s, env, regs),
    ensures
        runs(l, code, s, anf::lower_and(s, fs, a), regs, w, meaning::eval_and(l, s.ns, env, fs, a, w, fuel), r),
    decreases fuel, fs, fs.len() - a, 1int,
{
    if a < 0 || a >= fs.len() {
        const_runs(l, code, s, ConstView::Bool(true), regs, w)
    } else if a + 1 == fs.len() {
        form_runs(l, code, s, fs[a], env, regs, w, fuel)
    } else {
        let (s1, first) = anf::lower_form(s, fs[a])->Ok_0;
        let (s2, rest) = anf::fresh_block(s1)->Ok_0;
        let (s3, join) = anf::fresh_block(s2)->Ok_0;
        let term = TermView::Branch(first, rest, join);
        let s4 = anf::start(anf::finish(s3, term), rest);
        let (s5, v) = anf::lower_and(s4, fs, a + 1)->Ok_0;
        let (t, d) = anf::lower_and(s, fs, a)->Ok_0;
        let es = seq![(s3.current, first), (s5.current, v)];
        let j = anf::start(anf::finish(s5, TermView::Jump(join)), join);
        form_fits(code, s, fs[a]);
        and_fits(code, s4, fs, a + 1);
        finish_fits(code, s5, TermView::Jump(join));
        finish_fits(code, s3, term);
        assert(plain(s3) == plain(s1));
        reveal_with_fuel(meaning::taken, 3);
        let r1 = form_runs(l, code, s, fs[a], env, regs, w, fuel);
        match meaning::eval(l, s.ns, env, fs[a], w, fuel) {
            Outcome::Done(x, w1) => {
                if (l.truthy)(x) {
                    enter_plain(l, code, s3, term, s4, r1, w1);
                    reach_on(l, code, here(s, regs, w), here(s1, r1, w1), here(s4, r1, w1));
                    ready_later(code, s, s4, env, regs, r1);
                    let r2 = and_runs(l, code, s4, fs, a + 1, env, r1, w1, fuel);
                    let o = meaning::eval_and(l, s.ns, env, fs, a + 1, w1, fuel);
                    go_on(l, code, s, s4, s5, v, regs, w, r1, w1, o, r2);
                    match o {
                        Outcome::Done(y, w2) => {
                            assert(s3.current != s5.current);
                            enter_join(l, code, s5, TermView::Jump(join), j, d, es, v, t, r2, w2);
                            let r = r2.insert(d, r2[v]);
                            reach_on(l, code, here(s, regs, w), here(s5, r2, w2), here(t, r, w2));
                            r
                        },
                        _ => r2,
                    }
                } else {
                    enter_join(l, code, s3, term, j, d, es, first, t, r1, w1);
                    let r = r1.insert(d, r1[first]);
                    reach_on(l, code, here(s, regs, w), here(s1, r1, w1), here(t, r, w1));
                    r
                }
            },
            _ => r1,
        }
    }
}

proof fn or_runs(l: Lang, code: Code, s: LowerView, fs: Seq<Form>, a: int, env: Env, regs: Regs, w: int, fuel: nat) -> (r: Regs)
    requires
        is_built(code, anf::lower_or(s, fs, a)),
        ready(code, s, env, regs),
    ensures
        runs(l, code, s, anf::lower_or(s, fs, a), regs, w, meaning::eval_or(l, s.ns, env, fs, a, w, fuel), r),
    decreases fuel, fs, fs.len() - a, 1int,
{
    if a < 0 || a >= fs.len() {
        const_runs(l, code, s, ConstView::Nil, regs, w)
    } else if a + 1 == fs.len() {
        form_runs(l, code, s, fs[a], env, regs, w, fuel)
    } else {
        let (s1, first) = anf::lower_form(s, fs[a])->Ok_0;
        let (s2, rest) = anf::fresh_block(s1)->Ok_0;
        let (s3, join) = anf::fresh_block(s2)->Ok_0;
        let term = TermView::Branch(first, join, rest);
        let s4 = anf::start(anf::finish(s3, term), rest);
        let (s5, v) = anf::lower_or(s4, fs, a + 1)->Ok_0;
        let (t, d) = anf::lower_or(s, fs, a)->Ok_0;
        let es = seq![(s3.current, first), (s5.current, v)];
        let j = anf::start(anf::finish(s5, TermView::Jump(join)), join);
        form_fits(code, s, fs[a]);
        or_fits(code, s4, fs, a + 1);
        finish_fits(code, s5, TermView::Jump(join));
        finish_fits(code, s3, term);
        assert(plain(s3) == plain(s1));
        reveal_with_fuel(meaning::taken, 3);
        let r1 = form_runs(l, code, s, fs[a], env, regs, w, fuel);
        match meaning::eval(l, s.ns, env, fs[a], w, fuel) {
            Outcome::Done(x, w1) => {
                if !(l.truthy)(x) {
                    enter_plain(l, code, s3, term, s4, r1, w1);
                    reach_on(l, code, here(s, regs, w), here(s1, r1, w1), here(s4, r1, w1));
                    ready_later(code, s, s4, env, regs, r1);
                    let r2 = or_runs(l, code, s4, fs, a + 1, env, r1, w1, fuel);
                    let o = meaning::eval_or(l, s.ns, env, fs, a + 1, w1, fuel);
                    go_on(l, code, s, s4, s5, v, regs, w, r1, w1, o, r2);
                    match o {
                        Outcome::Done(y, w2) => {
                            assert(s3.current != s5.current);
                            enter_join(l, code, s5, TermView::Jump(join), j, d, es, v, t, r2, w2);
                            let r = r2.insert(d, r2[v]);
                            reach_on(l, code, here(s, regs, w), here(s5, r2, w2), here(t, r, w2));
                            r
                        },
                        _ => r2,
                    }
                } else {
                    enter_join(l, code, s3, term, j, d, es, first, t, r1, w1);
                    let r = r1.insert(d, r1[first]);
                    reach_on(l, code, here(s, regs, w), here(s1, r1, w1), here(t, r, w1));
                    r
                }
            },
            _ => r1,
        }
    }
}

proof fn if_runs(l: Lang, code: Code, s: LowerView, fs: Seq<Form>, env: Env, regs: Regs, w: int, fuel: nat) -> (r: Regs)
    requires
        is_built(code, anf::lower_if(s, fs)),
        ready(code, s, env, regs),
    ensures
        runs(l, code, s, anf::lower_if(s, fs), regs, w, meaning::eval_if(l, s.ns, env, fs, w, fuel), r),
    decreases fuel, fs, fs.len() as int, 1int,
{
    let (s1, test) = anf::lower_form(s, fs[1])->Ok_0;
    let (s2, then_block) = anf::fresh_block(s1)->Ok_0;
    let (s3, else_block) = anf::fresh_block(s2)->Ok_0;
    let (s4, join) = anf::fresh_block(s3)->Ok_0;
    let term = TermView::Branch(test, then_block, else_block);
    let s5 = anf::start(anf::finish(s4, term), then_block);
    let (s6, a) = anf::lower_or_nil(s5, fs, 2)->Ok_0;
    let s7 = anf::start(anf::finish(s6, TermView::Jump(join)), else_block);
    let (s8, b) = anf::lower_or_nil(s7, fs, 3)->Ok_0;
    let j = anf::start(anf::finish(s8, TermView::Jump(join)), join);
    let (t, d) = anf::lower_if(s, fs)->Ok_0;
    let es = seq![(s6.current, a), (s8.current, b)];
    form_fits(code, s, fs[1]);
    or_nil_fits(code, s5, fs, 2);
    or_nil_fits(code, s7, fs, 3);
    finish_fits(code, s8, TermView::Jump(join));
    finish_fits(code, s6, TermView::Jump(join));
    finish_fits(code, s4, term);
    assert(plain(s4) == plain(s1));
    assert(s6.current != s8.current);
    reveal_with_fuel(meaning::taken, 3);
    let r1 = form_runs(l, code, s, fs[1], env, regs, w, fuel);
    match meaning::eval(l, s.ns, env, fs[1], w, fuel) {
        Outcome::Done(x, w1) => {
            if (l.truthy)(x) {
                enter_plain(l, code, s4, term, s5, r1, w1);
                reach_on(l, code, here(s, regs, w), here(s1, r1, w1), here(s5, r1, w1));
                ready_later(code, s, s5, env, regs, r1);
                let r2 = or_nil_runs(l, code, s5, fs, 2, env, r1, w1, fuel);
                let o = meaning::eval_or_nil(l, s.ns, env, fs, 2, w1, fuel);
                go_on(l, code, s, s5, s6, a, regs, w, r1, w1, o, r2);
                match o {
                    Outcome::Done(y, w2) => {
                        enter_join(l, code, s6, TermView::Jump(join), j, d, es, a, t, r2, w2);
                        let r = r2.insert(d, r2[a]);
                        reach_on(l, code, here(s, regs, w), here(s6, r2, w2), here(t, r, w2));
                        r
                    },
                    _ => r2,
                }
            } else {
                enter_plain(l, code, s4, term, s7, r1, w1);
                reach_on(l, code, here(s, regs, w), here(s1, r1, w1), here(s7, r1, w1));
                ready_later(code, s, s7, env, regs, r1);
                let r2 = or_nil_runs(l, code, s7, fs, 3, env, r1, w1, fuel);
                let o = meaning::eval_or_nil(l, s.ns, env, fs, 3, w1, fuel);
                go_on(l, code, s, s7, s8, b, regs, w, r1, w1, o, r2);
                match o {
                    Outcome::Done(y, w2) => {
                        enter_join(l, code, s8, TermView::Jump(join), j, d, es, b, t, r2, w2);
                        let r = r2.insert(d, r2[b]);
                        reach_on(l, code, here(s, regs, w), here(s8, r2, w2), here(t, r, w2));
                        r
                    },
                    _ => r2,
                }
            }
        },
        _ => r1,
    }
}

spec fn runs_inits(l: Lang, code: Code, s: LowerView, t: LowerView, names: Seq<Seq<char>>, vars: Seq<VarId>, regs: Regs, w: int, o: Outcome<(Seq<Seq<char>>, Seq<int>)>, r: Regs) -> bool {
    match o {
        Outcome::Done((ns, xs), w1) => goes(l, code, s, t, regs, w, r, w1) && ns == names && xs == meaning::read(r, vars),
        _ => escapes(l, code, s, regs, w, meaning::left(o), r),
    }
}

proof fn inits_run(l: Lang, code: Code, s: LowerView, bs: Seq<Form>, i: int, names: Seq<Seq<char>>, vars: Seq<VarId>, env: Env, regs: Regs, w: int, fuel: nat) -> (r: Regs)
    requires
        anf::lower_inits(s, bs, i, names, vars) is Ok,
        fits(code, anf::lower_inits(s, bs, i, names, vars)->Ok_0.0),
        all_below(vars, s.next_var),
        ready(code, s, env, regs),
    ensures
        ({
            let (t, ns, vs) = anf::lower_inits(s, bs, i, names, vars)->Ok_0;
            runs_inits(l, code, s, t, ns, vs, regs, w, meaning::eval_inits(l, s.ns, env, bs, i, names, meaning::read(regs, vars), w, fuel), r)
        }),
    decreases fuel, bs, bs.len() - i, 0int,
{
    if i < 0 || i + 1 >= bs.len() {
        reach_self(l, code, here(s, regs, w));
        regs
    } else {
        match bs[i].kind {
            FormKind::Symbol(name) => {
                let (s1, v) = anf::lower_form(s, bs[i + 1])->Ok_0;
                let (t, ns, vs) = anf::lower_inits(s, bs, i, names, vars)->Ok_0;
                form_fits(code, s, bs[i + 1]);
                inits_fit(code, s1, bs, i + 2, names.push(name@), vars.push(v));
                let r1 = form_runs(l, code, s, bs[i + 1], env, regs, w, fuel);
                match meaning::eval(l, s.ns, env, bs[i + 1], w, fuel) {
                    Outcome::Done(x, w1) => {
                        read_push(regs, r1, vars, v, s.next_var);
                        ready_later(code, s, s1, env, regs, r1);
                        let r = inits_run(l, code, s1, bs, i + 2, names.push(name@), vars.push(v), env, r1, w1, fuel);
                        let o = meaning::eval_inits(l, s.ns, env, bs, i + 2, names.push(name@), meaning::read(r1, vars.push(v)), w1, fuel);
                        escape_on(l, code, s, s1, regs, w, r1, w1, meaning::left(o), r);
                        match o {
                            Outcome::Done(e, w2) => reach_on(l, code, here(s, regs, w), here(s1, r1, w1), here(t, r, w2)),
                            _ => {},
                        }
                        r
                    },
                    _ => r1,
                }
            },
            _ => regs,
        }
    }
}

/// The names of a loop stand for what its phis are.
proof fn loop_phis_show(s: LowerView, init: BlockId, names: Seq<Seq<char>>, vars: Seq<VarId>, i: int, done: Seq<VarId>, env: Env, vals: Seq<int>, regs: Regs)
    requires
        s.locals.len() > 0,
        tidy(s),
        0 <= i <= names.len(),
        anf::loop_phis(s, init, names, vars, i, done) is Ok,
        done.len() == i,
        vals.len() == names.len(),
        forall|k: int| i <= k < names.len() ==> regs[VarId((s.next_var + k - i) as u32)] == #[trigger] vals[k],
        shows(env.push(meaning::bound(names, vals, i)), s.locals, regs),
    ensures
        shows(env.push(meaning::bound(names, vals, names.len() as int)), anf::loop_phis(s, init, names, vars, i, done)->Ok_0.0.locals, regs),
    decreases names.len() - i,
{
    if i < names.len() {
        let f = |dst: VarId| InstView::Phi(dst, seq![(init, vars[i])]);
        let p = VarId(s.next_var);
        let s1 = anf::emit(LowerView { next_var: (s.next_var + 1) as u32, ..s }, f(p));
        assert(anf::emit_value(s, f) == Ok::<(LowerView, VarId), LowerErrorView>((s1, p)));
        later_is_tidy(s, s1);
        let e = env.push(meaning::bound(names, vals, i));
        bind_shows(s1, names[i], p, e, regs);
        bind_fits(Map::empty(), s1, names[i], p);
        assert(regs[p] == vals[i]);
        assert(e.drop_last() =~= env);
        assert(meaning::bound(names, vals, i + 1) == e.last().insert(names[i], regs[p]));
        loop_phis_show(anf::bind(s1, names[i], p), init, names, vars, i + 1, done.push(p), env, vals, regs);
    }
}

/// What the rounds of a loop need to know: the block of the loop, where its body is lowered, and the
/// way out.
spec fn is_loop(code: Code, s3: LowerView, init: BlockId, names: Seq<Seq<char>>, vars: Seq<VarId>, s4: LowerView, phis: Seq<VarId>, b: LowerView, fs: Seq<Form>, s5: LowerView, v: VarId, exit: BlockId, x: LowerView, t: LowerView, d: VarId) -> bool {
    &&& tidy(s3)
    &&& s3.locals.len() > 0
    &&& s3.insts.len() == 0
    &&& names.len() == vars.len()
    &&& anf::loop_phis(s3, init, names, vars, 0, Seq::empty()) == Ok::<(LowerView, Seq<VarId>), LowerErrorView>((s4, phis))
    &&& b == (LowerView { headers: s4.headers.push((s3.current, phis)), ..s4 })
    &&& fs.len() >= 2
    &&& anf::lower_body(b, fs, 2) == Ok::<(LowerView, VarId), LowerErrorView>((s5, v))
    &&& fits(code, s5)
    &&& all_kept(code, anf::finish(s5, TermView::Jump(exit)).blocks)
    &&& x.current == exit
    &&& x.insts.len() == 0
    &&& t == anf::emit(LowerView { next_var: t.next_var, ..x }, InstView::Phi(d, seq![(s5.current, v)]))
    &&& d.0 == s5.next_var
    &&& fits(code, t)
}

proof fn loop_is_known(code: Code, s3: LowerView, init: BlockId, names: Seq<Seq<char>>, vars: Seq<VarId>, s4: LowerView, phis: Seq<VarId>, b: LowerView, fs: Seq<Form>, s5: LowerView, v: VarId, exit: BlockId, x: LowerView, t: LowerView, d: VarId)
    requires
        is_loop(code, s3, init, names, vars, s4, phis, b, fs, s5, v, exit, x, t, d),
    ensures
        fits(code, b),
        tidy(b),
        heads(code, b),
        b.current == s3.current,
        plain(b).len() == 0,
        b.ns == s3.ns,
        b.locals.len() == s3.locals.len(),
        b.locals.drop_last() == s3.locals.drop_last(),
        b.next_var == s3.next_var + names.len(),
        phis.len() == names.len(),
        forall|k: int| 0 <= k < phis.len() ==> (#[trigger] phis[k]).0 == s3.next_var + k,
        has_phis(code[s3.current].phis, phis),
        forall|k: int| 0 <= k < phis.len() ==> meaning::taken((#[trigger] code[s3.current].phis[k])->Phi_1, init, 0) == Some(vars[k]),
        calm(b, s5),
        v.0 < s5.next_var,
{
    assert(anf::select(s3.insts, true) =~= header_phis(init, vars, Seq::empty()));
    loop_phis_fit(s3, init, names, vars, 0, Seq::empty(), s3.next_var);
    body_fits(code, b, fs, 2);
    later_is_tidy(s4, b);
    assert(plain(b) == plain(s3));
    let hs = header_phis(init, vars, phis);
    assert(anf::select(b.insts, true) == hs);
    let code_phis = code[b.current].phis;
    assert(are_fed(hs, code_phis));
    assert forall|k: int| 0 <= k < phis.len() implies #[trigger] code_phis[k] is Phi && code_phis[k]->Phi_0 == phis[k] && meaning::taken(code_phis[k]->Phi_1, init, 0) == Some(vars[k]) by {
        assert(is_fed(hs[k], code_phis[k]));
        let es = code_phis[k]->Phi_1;
        assert(es[0] == (init, vars[k]));
    }
    assert forall|j: int, k: int| 0 <= j < k < phis.len() implies (#[trigger] phis[j]) != (#[trigger] phis[k]) by {
        assert(phis[j].0 == s3.next_var + j && phis[k].0 == s3.next_var + k);
    }
    assert(b.headers.last() == (s3.current, phis));
}

/// The names around a loop and its own stand for what they should at the start of a round.
proof fn round_is_ready(code: Code, s3: LowerView, init: BlockId, names: Seq<Seq<char>>, vars: Seq<VarId>, s4: LowerView, phis: Seq<VarId>, b: LowerView, fs: Seq<Form>, s5: LowerView, v: VarId, exit: BlockId, x: LowerView, t: LowerView, d: VarId, env: Env, vals: Seq<int>, regs: Regs)
    requires
        is_loop(code, s3, init, names, vars, s4, phis, b, fs, s5, v, exit, x, t, d),
        s3.locals.last().len() == 0,
        shows(env, s3.locals.drop_last(), regs),
        vals.len() == names.len(),
        vals == meaning::read(regs, phis),
    ensures
        ready(code, b, env.push(meaning::bound(names, vals, names.len() as int)), regs),
{
    loop_is_known(code, s3, init, names, vars, s4, phis, b, fs, s5, v, exit, x, t, d);
    let e = env.push(meaning::bound(names, vals, 0));
    assert forall|k: int| 0 <= k < s3.locals.len() implies is_scope(e[k], #[trigger] s3.locals[k], regs) by {
        if k < s3.locals.len() - 1 {
            assert(s3.locals.drop_last()[k] == s3.locals[k]);
        }
    }
    assert forall|k: int| 0 <= k < names.len() implies regs[VarId((s3.next_var + k - 0) as u32)] == #[trigger] vals[k] by {
        assert(phis[k] == VarId((s3.next_var + k) as u32));
    }
    loop_phis_show(s3, init, names, vars, 0, Seq::empty(), env, vals, regs);
}

proof fn rounds_run(l: Lang, code: Code, s3: LowerView, init: BlockId, names: Seq<Seq<char>>, vars: Seq<VarId>, s4: LowerView, phis: Seq<VarId>, b: LowerView, fs: Seq<Form>, s5: LowerView, v: VarId, exit: BlockId, x: LowerView, t: LowerView, d: VarId, env: Env, vals: Seq<int>, regs: Regs, w: int, fuel: nat) -> (r: Regs)
    requires
        is_loop(code, s3, init, names, vars, s4, phis, b, fs, s5, v, exit, x, t, d),
        s3.locals.last().len() == 0,
        shows(env, s3.locals.drop_last(), regs),
        vals.len() == names.len(),
        vals == meaning::read(regs, phis),
    ensures
        match meaning::eval_round(l, s3.ns, env, fs, names, vals, w, fuel) {
            Outcome::Done(y, w1) => meaning::reaches(l, code, here(b, regs, w), here(t, r, w1)) && r[d] == y && alike(regs, r, s3.next_var),
            Outcome::Thrown(y, w1) => meaning::reaches(l, code, here(b, regs, w), Point::Thrown(y, w1)),
            Outcome::Recur(_, _) => false,
            Outcome::Stuck => true,
        },
    decreases fuel, fs, fs.len() as int, 0int,
{
    loop_is_known(code, s3, init, names, vars, s4, phis, b, fs, s5, v, exit, x, t, d);
    round_is_ready(code, s3, init, names, vars, s4, phis, b, fs, s5, v, exit, x, t, d, env, vals, regs);
    let within = env.push(meaning::bound(names, vals, names.len() as int));
    let r1 = body_runs(l, code, b, fs, 2, within, regs, w, fuel);
    match meaning::eval_body(l, s3.ns, within, fs, 2, w, fuel) {
        Outcome::Done(y, w1) => {
            let es = seq![(s5.current, v)];
            reveal_with_fuel(meaning::taken, 2);
            assert(meaning::taken(es, s5.current, 0) == Some(v));
            enter_join(l, code, s5, TermView::Jump(exit), x, d, es, v, t, r1, w1);
            let r = r1.insert(d, r1[v]);
            reach_on(l, code, here(b, regs, w), here(s5, r1, w1), here(t, r, w1));
            assert forall|u: VarId| u.0 < s3.next_var implies #[trigger] r[u] == regs[u] by {
                assert(r1[u] == regs[u]);
            }
            r
        },
        Outcome::Recur(next, w1) => {
            if next.len() != names.len() || fuel == 0 {
                regs
            } else {
                assert forall|u: VarId| u.0 < s3.next_var implies #[trigger] r1[u] == regs[u] by {
                    if phis.contains(u) {
                        let k = phis.index_of(u);
                        assert(phis[k] == u);
                    }
                }
                let outer = LowerView { locals: s3.locals.drop_last(), ..s3 };
                assert(tidy(outer)) by {
                    assert forall|i: int| 0 <= i < outer.locals.len() implies is_below(#[trigger] outer.locals[i], outer.next_var) && is_single(outer.locals[i]) by {
                        assert(outer.locals[i] == s3.locals[i]);
                    }
                }
                shows_later(outer, env, regs, r1);
                let r = rounds_run(l, code, s3, init, names, vars, s4, phis, b, fs, s5, v, exit, x, t, d, env, next, r1, w1, (fuel - 1) as nat);
                match meaning::eval_round(l, s3.ns, env, fs, names, next, w1, (fuel - 1) as nat) {
                    Outcome::Done(y, w2) => reach_on(l, code, here(b, regs, w), here(b, r1, w1), here(t, r, w2)),
                    Outcome::Thrown(y, w2) => reach_on(l, code, here(b, regs, w), here(b, r1, w1), Point::Thrown(y, w2)),
                    _ => {},
                }
                r
            }
        },
        _ => r1,
    }
}

proof fn loop_runs(l: Lang, code: Code, s: LowerView, fs: Seq<Form>, env: Env, regs: Regs, w: int, fuel: nat) -> (r: Regs)
    requires
        is_built(code, anf::lower_loop(s, fs)),
        ready(code, s, env, regs),
    ensures
        runs(l, code, s, anf::lower_loop(s, fs), regs, w, meaning::eval_loop(l, s.ns, env, fs, w, fuel), r),
    decreases fuel, fs, fs.len() as int, 1int,
{
    let none: Seq<VarId> = Seq::empty();
    assert(Seq::<int>::empty() =~= meaning::read(regs, none));
    match fs[1].kind {
        FormKind::Vector(bs) => {
            let (s1, names, vars) = anf::lower_inits(s, bs@, 0, Seq::empty(), none)->Ok_0;
            let (s2, header) = anf::fresh_block(s1)->Ok_0;
            let init = s2.current;
            let s3 = anf::push_scope(anf::start(anf::finish(s2, TermView::Jump(header)), header));
            let (s4, phis) = anf::loop_phis(s3, init, names, vars, 0, Seq::empty())->Ok_0;
            let b = LowerView { headers: s4.headers.push((header, phis)), ..s4 };
            let (s5, v) = anf::lower_body(b, fs, 2)->Ok_0;
            let (s7, exit) = anf::fresh_block(anf::pop_header(s5))->Ok_0;
            let x = anf::start(anf::pop_scope(anf::finish(s7, TermView::Jump(exit))), exit);
            let (t, d) = anf::lower_loop(s, fs)->Ok_0;
            inits_fit(code, s, bs@, 0, Seq::empty(), none);
            assert(s3.locals.drop_last() =~= s1.locals);
            later_is_tidy(s, s1);
            push_scope_is_tidy(LowerView { next_block: s2.next_block, ..s1 });
            assert(tidy(s3)) by {
                assert(tidy(anf::push_scope(LowerView { next_block: s2.next_block, ..s1 })));
                assert(s3.locals == anf::push_scope(LowerView { next_block: s2.next_block, ..s1 }).locals);
            }
            finish_fits(code, s7, TermView::Jump(exit));
            assert(plain(s7) == plain(s5));
            assert(anf::finish(s7, TermView::Jump(exit)).blocks == anf::finish(s5, TermView::Jump(exit)).blocks);
            finish_fits(code, s5, TermView::Jump(exit));
            assert(is_loop(code, s3, init, names, vars, s4, phis, b, fs, s5, v, exit, x, t, d));
            loop_is_known(code, s3, init, names, vars, s4, phis, b, fs, s5, v, exit, x, t, d);
            assert(s3.blocks == anf::finish(s2, TermView::Jump(header)).blocks);
            assert(s4.blocks == s3.blocks) by {
                assert(anf::select(s3.insts, true) =~= header_phis(init, vars, Seq::empty()));
                loop_phis_fit(s3, init, names, vars, 0, Seq::empty(), s3.next_var);
            }
            finish_fits(code, s2, TermView::Jump(header));
            assert(plain(s2) == plain(s1));
            let r1 = inits_run(l, code, s, bs@, 0, Seq::empty(), none, env, regs, w, fuel);
            match meaning::eval_inits(l, s.ns, env, bs@, 0, Seq::empty(), Seq::empty(), w, fuel) {
                Outcome::Done((ns, vals), w1) => {
                    let r2 = joined_sets(code[header].phis, init, r1, phis, vars, phis.len() as int);
                    reach_one(l, code, here(s1, r1, w1));
                    reach_on(l, code, here(s, regs, w), here(s1, r1, w1), here(b, r2, w1));
                    assert(vals =~= meaning::read(r2, phis));
                    assert forall|u: VarId| u.0 < s1.next_var implies #[trigger] r2[u] == r1[u] by {
                        if phis.contains(u) {
                            let k = phis.index_of(u);
                            assert(phis[k] == u);
                        }
                    }
                    ready_later(code, s, s1, env, regs, r1);
                    shows_later(s1, env, r1, r2);
                    let r = rounds_run(l, code, s3, init, names, vars, s4, phis, b, fs, s5, v, exit, x, t, d, env, vals, r2, w1, fuel);
                    match meaning::eval_round(l, s.ns, env, fs, names, vals, w1, fuel) {
                        Outcome::Done(y, w2) => {
                            reach_on(l, code, here(s, regs, w), here(b, r2, w1), here(t, r, w2));
                            assert forall|u: VarId| u.0 < s.next_var implies #[trigger] r[u] == regs[u] by {
                                assert(r2[u] == r1[u] && r1[u] == regs[u]);
                            }
                        },
                        Outcome::Thrown(y, w2) => reach_on(l, code, here(s, regs, w), here(b, r2, w1), Point::Thrown(y, w2)),
                        _ => {},
                    }
                    r
                },
                _ => r1,
            }
        },
        _ => regs,
    }
}

/// The names of the parameters.
pub open spec fn names_of(params: Seq<String>) -> Seq<Seq<char>> {
    Seq::new(params.len(), |i: int| params[i]@)
}

proof fn params_show(s: LowerView, params: Seq<String>, i: int, args: Seq<int>, regs: Regs)
    requires
        s.locals.len() > 0,
        tidy(s),
        0 <= i <= params.len(),
        s.next_var == i,
        args.len() == params.len(),
        anf::add_params(s, params, i) is Ok,
        forall|k: int| 0 <= k < args.len() ==> regs[VarId(k as u32)] == #[trigger] args[k],
        shows(seq![meaning::bound(names_of(params), args, i)], s.locals, regs),
    ensures
        ({
            let t = anf::add_params(s, params, i)->Ok_0;
            &&& t == (LowerView { next_var: t.next_var, params: t.params, locals: t.locals, ..s })
            &&& tidy(t)
            &&& shows(seq![meaning::bound(names_of(params), args, params.len() as int)], t.locals, regs)
        }),
    decreases params.len() - i,
{
    if i < params.len() {
        let v = VarId(s.next_var);
        let s1 = LowerView { next_var: (s.next_var + 1) as u32, ..s };
        let s2 = LowerView { params: s1.params.push((params[i]@, v)), ..s1 };
        let e = seq![meaning::bound(names_of(params), args, i)];
        later_is_tidy(s, s2);
        bind_shows(s2, params[i]@, v, e, regs);
        bind_fits(Map::empty(), s2, params[i]@, v);
        assert(regs[v] == args[i]);
        assert(names_of(params)[i] == params[i]@);
        assert(e.drop_last().push(e.last().insert(params[i]@, regs[v])) =~= seq![meaning::bound(names_of(params), args, i + 1)]);
        params_show(anf::bind(s2, params[i]@, v), params, i + 1, args, regs);
    }
}

/// A lowered function computes what its body evaluates to: started with its arguments as the
/// values of its parameters, it returns the result of the body where that has one, in the world that the body leaves,
/// and throws where the body does, whatever the constants, the truth and the acts of the language are.
/// The body does not ask for another round of a loop that is not there.
pub proof fn lowered_functions_compute(l: Lang, code: Code, name: Option<Seq<char>>, ns: Seq<char>, params: Seq<String>, body: Seq<Form>, args: Seq<int>, regs: Regs, w: int, fuel: nat)
    requires
        anf::lower_function(anf::initial(name, ns), params, body) is Ok,
        meaning::is_code(code, anf::lower_function(anf::initial(name, ns), params, body)->Ok_0.blocks),
        args.len() == params.len(),
        forall|k: int| 0 <= k < args.len() ==> regs[(#[trigger] anf::lower_function(anf::initial(name, ns), params, body)->Ok_0.params[k]).1] == args[k],
    ensures
        match meaning::eval_body(l, ns, seq![meaning::bound(names_of(params), args, params.len() as int)], body, 0, w, fuel) {
            Outcome::Done(y, w1) => meaning::reaches(l, code, Point::At(BlockId(0), 0, regs, w), Point::Returned(y, w1)),
            Outcome::Thrown(y, w1) => meaning::reaches(l, code, Point::At(BlockId(0), 0, regs, w), Point::Thrown(y, w1)),
            Outcome::Recur(_, _) => false,
            Outcome::Stuck => true,
        },
{
    let s = anf::initial(name, ns);
    let s1 = anf::add_params(s, params, 0)->Ok_0;
    let (s2, v) = anf::lower_body(s1, body, 0)->Ok_0;
    let env = seq![meaning::bound(names_of(params), args, params.len() as int)];
    let term = TermView::Return(v);
    let f = anf::lower_function(s, params, body)->Ok_0;
    assert(tidy(s));
    lowered::lowered_functions_are_whole(name, ns, params, body);
    assert forall|k: int| 0 <= k < args.len() implies regs[VarId(k as u32)] == #[trigger] args[k] by {
        assert(f.params[k].1 == VarId(k as u32));
    }
    params_show(s, params, 0, args, regs);
    let bs = anf::finish(s2, term).blocks;
    assert forall|k: int| 0 <= k < bs.len() implies kept(code, #[trigger] bs[k]) by {
        let b = bs[k];
        assert(code[b.id] == b);
        assert forall|i: int| 0 <= i < b.phis.len() implies is_fed(#[trigger] b.phis[i], b.phis[i]) by {}
    }
    finish_fits(code, s2, term);
    let r = body_runs(l, code, s1, body, 0, env, regs, w, fuel);
    assert(here(s1, regs, w) == Point::At(BlockId(0), 0, regs, w));
    match meaning::eval_body(l, ns, env, body, 0, w, fuel) {
        Outcome::Done(y, w1) => {
            reach_one(l, code, here(s2, r, w1));
            reach_on(l, code, here(s1, regs, w), here(s2, r, w1), Point::Returned(y, w1));
        },
        _ => {},
    }
}

/// The blocks of a lowered function can be found by their numbers.
pub proof fn lowered_functions_have_code(name: Option<Seq<char>>, ns: Seq<char>, params: Seq<String>, body: Seq<Form>) -> (code: Code)
    requires
        anf::lower_function(anf::initial(name, ns), params, body) is Ok,
    ensures
        meaning::is_code(code, anf::lower_function(anf::initial(name, ns), params, body)->Ok_0.blocks),
{
    let bs = anf::lower_function(anf::initial(name, ns), params, body)->Ok_0.blocks;
    lowered::lowered_functions_are_whole(name, ns, params, body);
    let code = Map::new(
        |id: BlockId| exists|k: int| 0 <= k < bs.len() && (#[trigger] bs[k]).id == id,
        |id: BlockId| bs[choose|k: int| 0 <= k < bs.len() && (#[trigger] bs[k]).id == id],
    );
    assert forall|k: int| 0 <= k < bs.len() implies code.dom().contains((#[trigger] bs[k]).id) && code[bs[k].id] == bs[k] by {
        let id = bs[k].id;
        let j = choose|j: int| 0 <= j < bs.len() && (#[trigger] bs[j]).id == id;
        if j < k {
            assert(bs[j].id != bs[k].id);
        } else if k < j {
            assert(bs[k].id != bs[j].id);
        }
    }
    code
}

/// A run ends in one way at most.
pub proof fn runs_end_in_one_way(l: Lang, code: Code, p: Point, q: Point, z: Point)
    requires
        meaning::reaches(l, code, p, q),
        meaning::reaches(l, code, p, z),
        !(q is At),
        !(z is At),
    ensures
        q == z,
{
    let n = choose|n: nat| #[trigger] meaning::walked(l, code, p, n) == q;
    let m = choose|m: nat| #[trigger] meaning::walked(l, code, p, m) == z;
    if n <= m {
        walk_adds(l, code, p, n, (m - n) as nat);
        ends_stay(l, code, q, (m - n) as nat);
    } else {
        walk_adds(l, code, p, m, (n - m) as nat);
        ends_stay(l, code, z, (n - m) as nat);
    }
}

proof fn ends_stay(l: Lang, code: Code, p: Point, n: nat)
    requires
        !(p is At),
    ensures
        meaning::walked(l, code, p, n) == p,
    decreases n,
{
    if n > 0 {
        ends_stay(l, code, p, (n - 1) as nat);
    }
}

/// What a jump back brings is what the phis of the loop take from the block that it comes from.
pub proof fn a_jump_back_feeds_its_loop(s: LowerView, fs: Seq<Form>)
    requires
        anf::lower_recur(s, fs) is Ok,
    ensures
        ({
            let (s1, args) = anf::lower_all(s, fs, 1, Seq::empty())->Ok_0;
            let bs = anf::lower_recur(s, fs)->Ok_0.0.blocks;
            let header = s1.headers.last().0;
            &&& bs.last().id == s1.current && bs.last().terminator == TermView::RecurJump(header, args)
            &&& forall|h: int, i: int| 0 <= h < s1.blocks.len() && s1.blocks[h].id == header && (forall|k: int| 0 <= k < h ==> (#[trigger] s1.blocks[k]).id != header)
                && 0 <= i < s1.blocks[h].phis.len() && i < args.len() && s1.blocks[h].phis[i] is Phi ==> {
                &&& #[trigger] bs[h].phis[i] is Phi
                &&& bs[h].phis[i]->Phi_0 == s1.blocks[h].phis[i]->Phi_0
                &&& bs[h].phis[i]->Phi_1.contains((s1.current, args[i]))
            }
        }),
{
    let (s1, args) = anf::lower_all(s, fs, 1, Seq::empty())->Ok_0;
    let bs = anf::lower_recur(s, fs)->Ok_0.0.blocks;
    let header = s1.headers.last().0;
    let fed = anf::feed_header(s1.blocks, header, s1.current, args);
    assert(bs.drop_last() =~= fed);
    assert forall|h: int, i: int| 0 <= h < s1.blocks.len() && s1.blocks[h].id == header && (forall|k: int| 0 <= k < h ==> (#[trigger] s1.blocks[k]).id != header)
        && 0 <= i < s1.blocks[h].phis.len() && i < args.len() && s1.blocks[h].phis[i] is Phi implies #[trigger] bs[h].phis[i] is Phi && bs[h].phis[i]->Phi_0 == s1.blocks[h].phis[i]->Phi_0 && bs[h].phis[i]->Phi_1.contains((s1.current, args[i])) by {
        found_first(s1.blocks, header, 0, h);
        let es = s1.blocks[h].phis[i]->Phi_1;
        assert(bs[h] == fed[h]);
        assert(fed[h].phis[i] == anf::feed_phi(s1.blocks[h].phis[i], s1.current, args, i));
        assert(bs[h].phis[i]->Phi_1[es.len() as int] == (s1.current, args[i]));
    }
}

proof fn found_first(blocks: Seq<BlockView>, id: BlockId, i: int, at: int)
    requires
        0 <= i <= at < blocks.len(),
        blocks[at].id == id,
        forall|k: int| i <= k < at ==> (#[trigger] blocks[k]).id != id,
    ensures
        anf::finished_at(blocks, id, i) == at,
    decreases at - i,
{
    if i < at {
        found_first(blocks, id, i + 1, at);
    }
}

} // verus!
