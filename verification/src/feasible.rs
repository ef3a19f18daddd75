//! Why the plan of a function can be carried out: every request finds what it needs, of the type
//! that it needs it in, and every block comes to its end.
use crate::backend;
use crate::backend::MachTy;
use crate::bridge;
use crate::bridge::{ClifTy, RtFn};
use crate::clif;
use crate::clif::{Cell, OpView, PlanView};
use crate::emission;
use crate::emission::EnvView;
use crate::ir;
use crate::ir::{Block, BlockId, ClosureTemplate, Const, Inst, IrFunction, KnownFn, RegionAllocKind, Repr, Terminator, VarId};
use crate::replay;
use crate::replay::{Desk, EntView, Kind, SettingView};
use crate::soundness;
use crate::typeinfer;
use vstd::prelude::*;

verus! {

/// What a request comes to does not matter here.
pub open spec fn unit_ent() -> EntView {
    EntView { id: 0, aux: Seq::empty() }
}

/// The desk behind the requests of a plan.
#[verifier::opaque]
pub open spec fn desk(ops: Seq<OpView>, st: SettingView) -> Desk {
    replay::run(ops, replay::blank(ops.len()), ops.len() as int, st)
}

proof fn run_agrees(a: Seq<OpView>, b: Seq<OpView>, x: Seq<EntView>, y: Seq<EntView>, n: int, st: SettingView)
    requires
        0 <= n <= a.len(),
        n <= b.len(),
        n <= x.len(),
        n <= y.len(),
        forall|k: int| 0 <= k < n ==> #[trigger] a[k] == b[k],
        forall|k: int| 0 <= k < n ==> #[trigger] x[k] == y[k],
    ensures
        replay::run(a, x, n, st) == replay::run(b, y, n, st),
    decreases n,
{
    if n > 0 {
        run_agrees(a, b, x, y, n - 1, st);
    }
}

proof fn desk_of_none(st: SettingView)
    ensures
        desk(Seq::empty(), st) == replay::empty_desk(),
{
    reveal(desk);
}

proof fn desk_push(ops: Seq<OpView>, op: OpView, st: SettingView)
    ensures
        desk(ops.push(op), st) == replay::advance(desk(ops, st), op, unit_ent(), st),
{
    reveal(desk);
    let n = ops.len() as int;
    run_agrees(ops.push(op), ops, replay::blank((n + 1) as nat), replay::blank(n as nat), n, st);
    assert(replay::blank((n + 1) as nat)[n] == unit_ent());
}

/// Every request has found what it needs.
pub open spec fn all_ready(ops: Seq<OpView>, st: SettingView) -> bool {
    forall|i: int| 0 <= i < ops.len() ==> replay::ready(desk(ops.take(i), st), #[trigger] ops[i], st)
}

/// What the request at `x` yields.
pub open spec fn kind(p: PlanView, x: usize, st: SettingView) -> Kind {
    replay::kind_at(desk(p.ops, st), x)
}

pub open spec fn place(p: PlanView, st: SettingView) -> Option<usize> {
    desk(p.ops, st).place
}

pub open spec fn entry(p: PlanView, st: SettingView) -> Option<usize> {
    desk(p.ops, st).entry
}

/// The block at `q` has an instruction.
pub open spec fn is_touched(p: PlanView, q: int, st: SettingView) -> bool {
    desk(p.ops, st).touched[q]
}

/// The block at `q` has come to its end.
pub open spec fn is_filled(p: PlanView, q: int, st: SettingView) -> bool {
    desk(p.ops, st).filled[q]
}

/// The type of a variable.
pub open spec fn var_ty(env: EnvView, v: VarId, st: SettingView) -> MachTy {
    backend::machine_ty(emission::clif_ty(emission::repr_of(env, v)), st.wide)
}

/// The plan can be carried out as far as it goes, and more can follow.
pub open spec fn is_under_way(env: EnvView, p: PlanView, st: SettingView) -> bool {
    let d = desk(p.ops, st);
    &&& all_ready(p.ops, st)
    &&& d.kinds.len() == p.ops.len()
    &&& d.touched.len() == p.ops.len()
    &&& d.filled.len() == p.ops.len()
    &&& d.vars.dom() == p.declared
    &&& forall|v: VarId| #[trigger] p.declared.contains(v.0) ==> d.vars[v.0].1 == var_ty(env, v, st)
    &&& !d.sealed
    &&& d.place matches Some(q) ==> q < p.ops.len() && d.kinds[q as int] == Kind::Block
}

/// There is a block to add to, and every other one with an instruction has come to its end.
pub open spec fn at_work(env: EnvView, p: PlanView, st: SettingView) -> bool {
    &&& is_under_way(env, p, st)
    &&& place(p, st) is Some
    &&& !is_filled(p, place(p, st)->0 as int, st)
    &&& forall|q: int| 0 <= q < p.ops.len() && #[trigger] is_touched(p, q, st) && place(p, st) != Some(q as usize) ==> is_filled(p, q, st)
}

/// All blocks with an instruction have come to their end.
pub open spec fn is_quiet(env: EnvView, p: PlanView, st: SettingView) -> bool {
    &&& is_under_way(env, p, st)
    &&& forall|q: int| 0 <= q < p.ops.len() && #[trigger] is_touched(p, q, st) ==> is_filled(p, q, st)
}

/// All blocks with an instruction have come to their end, the last one just now.
pub open spec fn at_rest(env: EnvView, p: PlanView, st: SettingView) -> bool {
    &&& is_quiet(env, p, st)
    &&& replay::is_over(desk(p.ops, st))
}

/// `t` goes on where `p` ends.
pub open spec fn grows(p: PlanView, t: PlanView) -> bool {
    p.ops.len() <= t.ops.len()
}

/// A machine can number the requests.
pub open spec fn is_small(p: PlanView) -> bool {
    p.ops.len() <= usize::MAX
}

/// What was there stays: what requests yield, and the blocks but for the one in work.
pub open spec fn keeps(p: PlanView, t: PlanView, st: SettingView) -> bool {
    &&& grows(p, t)
    &&& entry(t, st) == entry(p, st)
    &&& forall|x: usize| x < p.ops.len() ==> #[trigger] kind(t, x, st) == kind(p, x, st)
    &&& forall|q: int| 0 <= q < p.ops.len() && place(p, st) != Some(q as usize) ==> #[trigger] is_touched(t, q, st) == is_touched(p, q, st)
    &&& forall|q: int| 0 <= q < p.ops.len() && place(p, st) != Some(q as usize) ==> #[trigger] is_filled(t, q, st) == is_filled(p, q, st)
}

/// `p` is carried on to `t`: in the block in work, or in one that came since.
pub open spec fn leads(env: EnvView, p: PlanView, t: PlanView, st: SettingView) -> bool {
    &&& at_work(env, t, st)
    &&& keeps(p, t, st)
    &&& place(t, st) == place(p, st) || place(t, st)->0 >= p.ops.len()
}

proof fn leads_on(env: EnvView, p: PlanView, u: PlanView, t: PlanView, st: SettingView)
    ensures
        grows(p, u) && grows(u, t) ==> grows(p, t),
        leads(env, p, u, st) && leads(env, u, t, st) ==> leads(env, p, t, st),
{
    if leads(env, p, u, st) && leads(env, u, t, st) {
        assert forall|x: usize| x < p.ops.len() implies #[trigger] kind(t, x, st) == kind(p, x, st) by {
            assert(kind(t, x, st) == kind(u, x, st));
        }
        assert forall|q: int| 0 <= q < p.ops.len() && place(p, st) != Some(q as usize) implies #[trigger] is_touched(t, q, st) == is_touched(p, q, st) by {
            assert(is_touched(t, q, st) == is_touched(u, q, st));
        }
        assert forall|q: int| 0 <= q < p.ops.len() && place(p, st) != Some(q as usize) implies #[trigger] is_filled(t, q, st) == is_filled(p, q, st) by {
            assert(is_filled(t, q, st) == is_filled(u, q, st));
        }
    }
}

/// The request changes neither blocks nor variables.
pub open spec fn is_plain(op: OpView) -> bool {
    match op {
        OpView::SwitchTo(_) | OpView::FunctionParams(_) | OpView::DeclareVar { .. } | OpView::SealAll => false,
        _ => !replay::ends(op),
    }
}

proof fn ready_grows(p: PlanView, op: OpView, st: SettingView)
    requires
        all_ready(p.ops, st),
        replay::ready(desk(p.ops, st), op, st),
    ensures
        all_ready(p.ops.push(op), st),
{
    let ops = p.ops.push(op);
    assert forall|i: int| 0 <= i < ops.len() implies replay::ready(desk(ops.take(i), st), #[trigger] ops[i], st) by {
        if i < p.ops.len() {
            assert(ops.take(i) =~= p.ops.take(i));
            assert(ops[i] == p.ops[i]);
        } else {
            assert(ops.take(i) =~= p.ops);
        }
    }
}

proof fn plain_step(env: EnvView, p: PlanView, op: OpView, st: SettingView)
    ensures
        grows(p, clif::emit(p, op)),
        at_work(env, p, st) && p.ops.len() < usize::MAX && is_plain(op) && replay::ready(desk(p.ops, st), op, st) ==> {
            &&& leads(env, p, clif::emit(p, op), st)
            &&& place(clif::emit(p, op), st) == place(p, st)
            &&& clif::next(p) == p.ops.len()
            &&& kind(clif::emit(p, op), clif::next(p), st) == replay::kind_of(desk(p.ops, st), op, st)
            &&& !is_touched(clif::emit(p, op), p.ops.len() as int, st)
            &&& !is_filled(clif::emit(p, op), p.ops.len() as int, st)
            &&& !replay::adds(op) ==> forall|q: int| 0 <= q < p.ops.len() ==> #[trigger] is_touched(clif::emit(p, op), q, st) == is_touched(p, q, st)
        },
{
    let t = clif::emit(p, op);
    if at_work(env, p, st) && p.ops.len() < usize::MAX && is_plain(op) && replay::ready(desk(p.ops, st), op, st) {
        ready_grows(p, op, st);
        desk_push(p.ops, op, st);
        let d = desk(p.ops, st);
        let e = desk(t.ops, st);
        let q0 = d.place->0 as int;
        reveal(replay::advance);
        assert(e.kinds == d.kinds.push(replay::kind_of(d, op, st)));
        assert(e.filled == d.filled.push(false));
        assert(e.touched == replay::mark(d.touched, d.place, replay::adds(op)).push(false));
        assert(e.vars == d.vars);
        assert(e.place == d.place);
        assert forall|q: int| 0 <= q < t.ops.len() && #[trigger] is_touched(t, q, st) && place(t, st) != Some(q as usize) implies is_filled(t, q, st) by {
            if q < p.ops.len() {
                assert(is_touched(p, q, st));
            }
        }
        assert(is_under_way(env, t, st));
        assert(at_work(env, t, st));
    }
}

proof fn leads_itself(env: EnvView, p: PlanView, st: SettingView)
    ensures
        at_work(env, p, st) ==> leads(env, p, p, st),
{
}

proof fn declares(env: EnvView, p: PlanView, v: VarId, st: SettingView)
    ensures
        grows(p, emission::ensure_var(env, p, v)),
        at_work(env, p, st) && is_small(emission::ensure_var(env, p, v)) ==> {
            &&& leads(env, p, emission::ensure_var(env, p, v), st)
            &&& place(emission::ensure_var(env, p, v), st) == place(p, st)
            &&& emission::ensure_var(env, p, v).declared.contains(v.0)
            &&& forall|q: int| 0 <= q < p.ops.len() ==> #[trigger] is_touched(emission::ensure_var(env, p, v), q, st) == is_touched(p, q, st)
        },
{
    let t = emission::ensure_var(env, p, v);
    if at_work(env, p, st) && is_small(t) && !p.declared.contains(v.0) {
        let op = OpView::DeclareVar { var: v, ty: emission::clif_ty(emission::repr_of(env, v)) };
        assert(replay::ready(desk(p.ops, st), op, st)) by {
            reveal(replay::ready);
        }
        ready_grows(p, op, st);
        desk_push(p.ops, op, st);
        let d = desk(p.ops, st);
        let e = desk(t.ops, st);
        reveal(replay::advance);
        assert(e.kinds == d.kinds.push(Kind::Nothing));
        assert(e.filled == d.filled.push(false));
        assert(e.touched == d.touched.push(false));
        assert(e.vars == d.vars.insert(v.0, (0u32, var_ty(env, v, st))));
        assert(e.vars.dom() =~= t.declared);
        assert forall|w: VarId| #[trigger] t.declared.contains(w.0) implies e.vars[w.0].1 == var_ty(env, w, st) by {
            if w.0 != v.0 {
                assert(p.declared.contains(w.0));
            } else {
                assert(w == v);
            }
        }
        assert forall|q: int| 0 <= q < t.ops.len() && #[trigger] is_touched(t, q, st) && place(t, st) != Some(q as usize) implies is_filled(t, q, st) by {
            if q < p.ops.len() {
                assert(is_touched(p, q, st));
            }
        }
        assert(is_under_way(env, t, st));
        assert(at_work(env, t, st));
    }
}

/// The request at `x` yields a value of the type.
pub open spec fn gives(p: PlanView, x: usize, ty: MachTy, st: SettingView) -> bool {
    kind(p, x, st) == Kind::Value(ty)
}

/// The request at `x` yields a pointer.
pub open spec fn gives_ptr(p: PlanView, x: usize, st: SettingView) -> bool {
    gives(p, x, replay::ptr_ty(st), st)
}

/// The requests yield values.
pub open spec fn all_give(p: PlanView, xs: Seq<usize>, st: SettingView) -> bool {
    forall|i: int| 0 <= i < xs.len() ==> kind(p, #[trigger] xs[i], st) is Value
}

proof fn they_still_give(env: EnvView, p: PlanView, t: PlanView, xs: Seq<usize>, st: SettingView)
    requires
        keeps(p, t, st),
        is_under_way(env, p, st),
        all_give(p, xs, st),
    ensures
        all_give(t, xs, st),
{
    assert forall|i: int| 0 <= i < xs.len() implies kind(t, #[trigger] xs[i], st) is Value by {
        assert(kind(p, xs[i], st) is Value);
        assert(xs[i] < p.ops.len());
    }
}

proof fn uses_var(env: EnvView, p: PlanView, v: VarId, st: SettingView)
    ensures
        grows(p, emission::use_var(env, p, v).0),
        at_work(env, p, st) && is_small(emission::use_var(env, p, v).0) ==> {
            let (t, x) = emission::use_var(env, p, v);
            &&& leads(env, p, t, st)
            &&& place(t, st) == place(p, st)
            &&& gives(t, x, var_ty(env, v, st), st)
        },
{
    let s1 = emission::ensure_var(env, p, v);
    let op = OpView::UseVar(v);
    declares(env, p, v, st);
    plain_step(env, s1, op, st);
    leads_on(env, p, s1, clif::emit(s1, op), st);
    if at_work(env, p, st) && is_small(emission::use_var(env, p, v).0) {
        assert(desk(s1.ops, st).vars.dom().contains(v.0));
        assert(replay::ready(desk(s1.ops, st), op, st)) by {
            reveal(replay::ready);
        }
    }
}

proof fn defines(env: EnvView, p: PlanView, v: VarId, value: usize, st: SettingView)
    ensures
        grows(p, emission::define(env, p, v, value)),
        at_work(env, p, st) && is_small(emission::define(env, p, v, value)) && gives(p, value, var_ty(env, v, st), st) ==> {
            &&& leads(env, p, emission::define(env, p, v, value), st)
            &&& place(emission::define(env, p, v, value), st) == place(p, st)
        },
{
    let s1 = emission::ensure_var(env, p, v);
    let op = OpView::DefVar { var: v, value };
    declares(env, p, v, st);
    plain_step(env, s1, op, st);
    leads_on(env, p, s1, clif::emit(s1, op), st);
    if at_work(env, p, st) && is_small(emission::define(env, p, v, value)) && gives(p, value, var_ty(env, v, st), st) {
        assert(value < p.ops.len());
        assert(kind(s1, value, st) == kind(p, value, st));
        assert(desk(s1.ops, st).vars.dom().contains(v.0));
        assert(replay::ready(desk(s1.ops, st), op, st)) by {
            reveal(replay::ready);
        }
    }
}

/// The type of what a bridge function returns.
pub open spec fn returned(f: RtFn, st: SettingView) -> MachTy {
    backend::machine_ty(bridge::rt_result(f)->0, st.wide)
}

proof fn imports_rt(env: EnvView, p: PlanView, f: RtFn, st: SettingView)
    ensures
        grows(p, emission::req(p, OpView::ImportRt(f)).0),
        at_work(env, p, st) && is_small(emission::req(p, OpView::ImportRt(f)).0) ==> {
            let (t, x) = emission::req(p, OpView::ImportRt(f));
            &&& leads(env, p, t, st)
            &&& place(t, st) == place(p, st)
            &&& kind(t, x, st) == Kind::Func(replay::rt_machine_result(f, st.wide))
        },
{
    plain_step(env, p, OpView::ImportRt(f), st);
    reveal(replay::ready);
}

proof fn calls(env: EnvView, p: PlanView, func: usize, args: Seq<usize>, st: SettingView)
    ensures
        grows(p, emission::req(p, OpView::Call { func, args }).0),
        at_work(env, p, st) && is_small(emission::req(p, OpView::Call { func, args }).0) && all_give(p, args, st) ==> (kind(p, func, st) matches Kind::Func(Some(ty)) ==> {
            let (t, x) = emission::req(p, OpView::Call { func, args });
            &&& leads(env, p, t, st)
            &&& place(t, st) == place(p, st)
            &&& gives(t, x, ty, st)
        }),
{
    let op = OpView::Call { func, args };
    plain_step(env, p, op, st);
    if at_work(env, p, st) && is_small(emission::req(p, op).0) && all_give(p, args, st) {
        assert(replay::values_at(desk(p.ops, st), args)) by {
            assert forall|i: int| 0 <= i < args.len() implies replay::value_at(desk(p.ops, st), #[trigger] args[i]) by {
                assert(kind(p, args[i], st) is Value);
            }
        }
        reveal(replay::ready);
    }
}

proof fn calls_rt(env: EnvView, p: PlanView, f: RtFn, args: Seq<usize>, st: SettingView)
    ensures
        grows(p, emission::call_rt(p, f, args).0),
        at_work(env, p, st) && is_small(emission::call_rt(p, f, args).0) && all_give(p, args, st) && bridge::rt_result(f) is Some ==> {
            let (t, x) = emission::call_rt(p, f, args);
            &&& leads(env, p, t, st)
            &&& place(t, st) == place(p, st)
            &&& gives(t, x, returned(f, st), st)
        },
{
    let (s1, func) = emission::req(p, OpView::ImportRt(f));
    let t = emission::req(s1, OpView::Call { func, args }).0;
    imports_rt(env, p, f, st);
    calls(env, s1, func, args, st);
    leads_on(env, p, s1, t, st);
    if at_work(env, p, st) && is_small(t) && all_give(p, args, st) && bridge::rt_result(f) is Some {
        they_still_give(env, p, s1, args, st);
    }
}

proof fn calls_rt_void(env: EnvView, p: PlanView, f: RtFn, args: Seq<usize>, st: SettingView)
    ensures
        grows(p, emission::call_rt_void(p, f, args)),
        at_work(env, p, st) && is_small(emission::call_rt_void(p, f, args)) && all_give(p, args, st) ==> {
            let t = emission::call_rt_void(p, f, args);
            &&& leads(env, p, t, st)
            &&& place(t, st) == place(p, st)
        },
{
    let (s1, func) = emission::req(p, OpView::ImportRt(f));
    let op = OpView::CallVoid { func, args };
    let t = clif::emit(s1, op);
    imports_rt(env, p, f, st);
    plain_step(env, s1, op, st);
    leads_on(env, p, s1, t, st);
    if at_work(env, p, st) && is_small(t) && all_give(p, args, st) {
        they_still_give(env, p, s1, args, st);
        assert(replay::values_at(desk(s1.ops, st), args)) by {
            assert forall|i: int| 0 <= i < args.len() implies replay::value_at(desk(s1.ops, st), #[trigger] args[i]) by {
                assert(kind(s1, args[i], st) is Value);
            }
        }
        reveal(replay::ready);
    }
}

proof fn uses_boxed(env: EnvView, p: PlanView, v: VarId, st: SettingView)
    ensures
        grows(p, emission::use_boxed(env, p, v).0),
        at_work(env, p, st) && is_small(emission::use_boxed(env, p, v).0) ==> {
            let (t, x) = emission::use_boxed(env, p, v);
            &&& leads(env, p, t, st)
            &&& place(t, st) == place(p, st)
            &&& gives_ptr(t, x, st)
        },
{
    let (s1, raw) = emission::use_var(env, p, v);
    let t = emission::use_boxed(env, p, v).0;
    uses_var(env, p, v, st);
    calls_rt(env, s1, RtFn::ConstLong, seq![raw], st);
    calls_rt(env, s1, RtFn::ConstDouble, seq![raw], st);
    calls_rt(env, s1, RtFn::BoxBool, seq![raw], st);
    leads_on(env, p, s1, t, st);
}

proof fn uses_all_boxed(env: EnvView, p: PlanView, vs: Seq<VarId>, i: int, done: Seq<usize>, st: SettingView)
    requires
        0 <= i,
    ensures
        grows(p, emission::use_all_boxed(env, p, vs, i, done).0),
        at_work(env, p, st) && is_small(emission::use_all_boxed(env, p, vs, i, done).0) && all_give(p, done, st) ==> {
            let (t, xs) = emission::use_all_boxed(env, p, vs, i, done);
            &&& leads(env, p, t, st)
            &&& place(t, st) == place(p, st)
            &&& all_give(t, xs, st)
        },
    decreases vs.len() - i,
{
    if i < vs.len() {
        let (s1, x) = emission::use_boxed(env, p, vs[i]);
        let t = emission::use_all_boxed(env, s1, vs, i + 1, done.push(x)).0;
        uses_boxed(env, p, vs[i], st);
        uses_all_boxed(env, s1, vs, i + 1, done.push(x), st);
        leads_on(env, p, s1, t, st);
        if at_work(env, p, st) && is_small(t) && all_give(p, done, st) {
            they_still_give(env, p, s1, done, st);
            assert(all_give(s1, done.push(x), st));
        }
    }
}

proof fn coerces(env: EnvView, p: PlanView, v: VarId, target: Repr, st: SettingView)
    ensures
        emission::coerce(env, p, v, target) matches Ok((t, x)) ==> {
            &&& grows(p, t)
            &&& at_work(env, p, st) && is_small(t) ==> leads(env, p, t, st) && place(t, st) == place(p, st) && kind(t, x, st) is Value
        },
{
    uses_var(env, p, v, st);
    uses_boxed(env, p, v, st);
}

proof fn uses_f64(env: EnvView, p: PlanView, v: VarId, st: SettingView)
    ensures
        emission::use_f64(env, p, v) matches Ok((t, x)) ==> {
            &&& grows(p, t)
            &&& at_work(env, p, st) && is_small(t) ==> leads(env, p, t, st) && place(t, st) == place(p, st) && gives(t, x, MachTy::F64, st)
        },
{
    let (s1, raw) = emission::use_var(env, p, v);
    uses_var(env, p, v, st);
    let op = OpView::FcvtFromSint(raw);
    plain_step(env, s1, op, st);
    leads_on(env, p, s1, clif::emit(s1, op), st);
    reveal(replay::ready);
}

proof fn yields_const(env: EnvView, p: PlanView, ty: ClifTy, value: i64, st: SettingView)
    ensures
        grows(p, emission::req(p, OpView::Iconst { ty, value }).0),
        at_work(env, p, st) && is_small(emission::req(p, OpView::Iconst { ty, value }).0) ==> {
            let (t, x) = emission::req(p, OpView::Iconst { ty, value });
            &&& leads(env, p, t, st)
            &&& place(t, st) == place(p, st)
            &&& gives(t, x, backend::machine_ty(ty, st.wide), st)
        },
{
    plain_step(env, p, OpView::Iconst { ty, value }, st);
    reveal(replay::ready);
}

proof fn addresses_text(env: EnvView, p: PlanView, text: Seq<char>, st: SettingView)
    ensures
        grows(p, emission::text_ptr(p, text).0),
        at_work(env, p, st) && is_small(emission::text_ptr(p, text).0) ==> {
            let (t, ptr, len) = emission::text_ptr(p, text);
            &&& leads(env, p, t, st)
            &&& place(t, st) == place(p, st)
            &&& gives_ptr(t, ptr, st)
            &&& kind(t, len, st) is Value
        },
{
    let (s1, data) = emission::req(p, OpView::TextData(text));
    let (s2, ptr) = emission::req(s1, OpView::DataAddr(data));
    let (s3, len) = emission::iconst64(s2, emission::byte_len(text));
    plain_step(env, p, OpView::TextData(text), st);
    plain_step(env, s1, OpView::DataAddr(data), st);
    yields_const(env, s2, ClifTy::I64, emission::byte_len(text), st);
    leads_on(env, p, s1, s2, st);
    leads_on(env, p, s2, s3, st);
    reveal(replay::ready);
}

/// A block that nothing has been added to.
pub open spec fn is_fresh(p: PlanView, b: usize, st: SettingView) -> bool {
    kind(p, b, st) == Kind::Block && !is_touched(p, b as int, st) && !is_filled(p, b as int, st)
}

proof fn ends_block(env: EnvView, p: PlanView, op: OpView, st: SettingView)
    ensures
        grows(p, clif::emit(p, op)),
        at_work(env, p, st) && p.ops.len() < usize::MAX && replay::ends(op) && replay::ready(desk(p.ops, st), op, st) ==> {
            &&& at_rest(env, clif::emit(p, op), st)
            &&& keeps(p, clif::emit(p, op), st)
        },
{
    let t = clif::emit(p, op);
    if at_work(env, p, st) && p.ops.len() < usize::MAX && replay::ends(op) && replay::ready(desk(p.ops, st), op, st) {
        ready_grows(p, op, st);
        desk_push(p.ops, op, st);
        let d = desk(p.ops, st);
        let e = desk(t.ops, st);
        reveal(replay::advance);
        let q0 = d.place->0 as int;
        assert(e.kinds == d.kinds.push(Kind::Nothing));
        assert(e.filled == d.filled.update(q0, true).push(false));
        assert(e.touched == d.touched.update(q0, true).push(false));
        assert(e.vars == d.vars);
        assert(e.place == d.place);
        assert forall|q: int| 0 <= q < t.ops.len() && #[trigger] is_touched(t, q, st) implies is_filled(t, q, st) by {
            if q < p.ops.len() && q != q0 {
                assert(is_touched(p, q, st));
            }
        }
        assert(is_under_way(env, t, st));
    }
}

proof fn enters_block(env: EnvView, p: PlanView, b: usize, st: SettingView)
    ensures
        grows(p, clif::emit(p, OpView::SwitchTo(b))),
        is_quiet(env, p, st) && p.ops.len() < usize::MAX && is_fresh(p, b, st) ==> {
            let t = clif::emit(p, OpView::SwitchTo(b));
            &&& at_work(env, t, st)
            &&& place(t, st) == Some(b)
            &&& entry(t, st) == entry(p, st)
            &&& desk(t.ops, st).plain == desk(p.ops, st).plain
            &&& forall|x: usize| x < p.ops.len() ==> #[trigger] kind(t, x, st) == kind(p, x, st)
            &&& forall|q: int| 0 <= q < p.ops.len() ==> #[trigger] is_touched(t, q, st) == is_touched(p, q, st)
            &&& forall|q: int| 0 <= q < p.ops.len() ==> #[trigger] is_filled(t, q, st) == is_filled(p, q, st)
        },
{
    let op = OpView::SwitchTo(b);
    let t = clif::emit(p, op);
    if is_quiet(env, p, st) && p.ops.len() < usize::MAX && is_fresh(p, b, st) {
        let d = desk(p.ops, st);
        assert(b < p.ops.len());
        if let Some(q) = d.place {
            assert(is_touched(p, q as int, st) ==> is_filled(p, q as int, st));
        }
        assert(replay::ready(d, op, st)) by {
            reveal(replay::ready);
        }
        ready_grows(p, op, st);
        desk_push(p.ops, op, st);
        let e = desk(t.ops, st);
        reveal(replay::advance);
        assert(e.kinds == d.kinds.push(Kind::Nothing));
        assert(e.filled == d.filled.push(false));
        assert(e.touched == d.touched.push(false));
        assert(e.vars == d.vars);
        assert forall|q: int| 0 <= q < t.ops.len() && #[trigger] is_touched(t, q, st) && place(t, st) != Some(q as usize) implies is_filled(t, q, st) by {
            if q < p.ops.len() {
                assert(is_touched(p, q, st));
            }
        }
        assert(is_under_way(env, t, st));
    }
}

/// The block in work comes to its end, and another one is begun.
proof fn hops(env: EnvView, p: PlanView, op: OpView, b: usize, st: SettingView)
    ensures
        grows(p, clif::emit(clif::emit(p, op), OpView::SwitchTo(b))),
        at_work(env, p, st) && p.ops.len() + 1 < usize::MAX && replay::ends(op) && replay::ready(desk(p.ops, st), op, st) && is_fresh(p, b, st) && place(p, st) != Some(b) ==> {
            let t = clif::emit(clif::emit(p, op), OpView::SwitchTo(b));
            &&& at_work(env, t, st)
            &&& keeps(p, t, st)
            &&& place(t, st) == Some(b)
        },
{
    let u = clif::emit(p, op);
    let t = clif::emit(u, OpView::SwitchTo(b));
    ends_block(env, p, op, st);
    enters_block(env, u, b, st);
    if at_work(env, p, st) && p.ops.len() + 1 < usize::MAX && replay::ends(op) && replay::ready(desk(p.ops, st), op, st) && is_fresh(p, b, st) && place(p, st) != Some(b) {
        assert(b < p.ops.len());
        assert(kind(u, b, st) == kind(p, b, st));
        assert(is_touched(u, b as int, st) == is_touched(p, b as int, st));
        assert(is_filled(u, b as int, st) == is_filled(p, b as int, st));
        assert forall|x: usize| x < p.ops.len() implies #[trigger] kind(t, x, st) == kind(p, x, st) by {
            assert(kind(t, x, st) == kind(u, x, st));
        }
        assert forall|q: int| 0 <= q < p.ops.len() && place(p, st) != Some(q as usize) implies #[trigger] is_touched(t, q, st) == is_touched(p, q, st) by {
            assert(is_touched(t, q, st) == is_touched(u, q, st));
        }
        assert forall|q: int| 0 <= q < p.ops.len() && place(p, st) != Some(q as usize) implies #[trigger] is_filled(t, q, st) == is_filled(p, q, st) by {
            assert(is_filled(t, q, st) == is_filled(u, q, st));
        }
    }
}

/// What is done behind `p` in blocks that came since, and then in another, carries `p` on.
proof fn leads_over(env: EnvView, p: PlanView, u: PlanView, t: PlanView, st: SettingView)
    requires
        leads(env, p, u, st),
        at_work(env, t, st),
        keeps(u, t, st),
        place(t, st)->0 >= p.ops.len() || place(t, st) == place(p, st),
    ensures
        leads(env, p, t, st),
{
    assert forall|x: usize| x < p.ops.len() implies #[trigger] kind(t, x, st) == kind(p, x, st) by {
        assert(kind(t, x, st) == kind(u, x, st));
    }
    assert forall|q: int| 0 <= q < p.ops.len() && place(p, st) != Some(q as usize) implies #[trigger] is_touched(t, q, st) == is_touched(p, q, st) by {
        assert(is_touched(t, q, st) == is_touched(u, q, st));
    }
    assert forall|q: int| 0 <= q < p.ops.len() && place(p, st) != Some(q as usize) implies #[trigger] is_filled(t, q, st) == is_filled(p, q, st) by {
        assert(is_filled(t, q, st) == is_filled(u, q, st));
    }
}

#[verifier::rlimit(30)]
proof fn heads_cache(env: EnvView, p: PlanView, st: SettingView)
    ensures
        grows(p, emission::cache_head(p).0),
        at_work(env, p, st) && is_small(emission::cache_head(p).0) ==> {
            let (t, slot, merge, param) = emission::cache_head(p);
            &&& leads(env, p, t, st)
            &&& place(t, st) != Some(merge)
            &&& merge >= p.ops.len()
            &&& is_fresh(t, merge, st)
            &&& gives_ptr(t, slot, st)
            &&& gives_ptr(t, param, st)
        },
{
    let (s1, data) = emission::req(p, OpView::ZeroData);
    let (s2, slot) = emission::req(s1, OpView::DataAddr(data));
    let (s3, cached) = emission::req(s2, OpView::LoadPtr(slot));
    let (s4, miss) = emission::req(s3, OpView::CreateBlock);
    let (s5, merge) = emission::req(s4, OpView::CreateBlock);
    let (s6, param) = emission::req(s5, OpView::AppendParam { block: merge, ty: ClifTy::Ptr });
    let op = OpView::Brif { cond: cached, then_block: merge, then_args: seq![cached], else_block: miss, else_args: Seq::empty() };
    let t = emission::cache_head(p).0;
    if at_work(env, p, st) && is_small(t) {
        reveal(replay::ready);
        plain_step(env, p, OpView::ZeroData, st);
        plain_step(env, s1, OpView::DataAddr(data), st);
        leads_on(env, p, s1, s2, st);
        plain_step(env, s2, OpView::LoadPtr(slot), st);
        leads_on(env, p, s2, s3, st);
        plain_step(env, s3, OpView::CreateBlock, st);
        leads_on(env, p, s3, s4, st);
        assert(is_fresh(s4, miss, st));
        plain_step(env, s4, OpView::CreateBlock, st);
        leads_on(env, p, s4, s5, st);
        assert(is_fresh(s5, merge, st));
        assert(is_fresh(s5, miss, st));
        plain_step(env, s5, OpView::AppendParam { block: merge, ty: ClifTy::Ptr }, st);
        leads_on(env, p, s5, s6, st);
        assert(is_fresh(s6, merge, st));
        assert(is_fresh(s6, miss, st));
        assert(gives_ptr(s6, cached, st));
        assert(gives_ptr(s6, slot, st));
        assert(replay::values_at(desk(s6.ops, st), seq![cached]));
        assert(replay::ready(desk(s6.ops, st), op, st));
        hops(env, s6, op, miss, st);
        leads_over(env, p, s6, t, st);
        assert(kind(t, slot, st) == kind(s6, slot, st));
        assert(kind(t, param, st) == kind(s6, param, st));
        assert(kind(t, merge, st) == kind(s6, merge, st));
        assert(is_touched(t, merge as int, st) == is_touched(s6, merge as int, st));
        assert(is_filled(t, merge as int, st) == is_filled(s6, merge as int, st));
    }
}

/// The tail of a cache that was begun behind `p`.
proof fn tails_cache(env: EnvView, p: PlanView, u: PlanView, merge: usize, filled: usize, st: SettingView)
    ensures
        grows(u, emission::cache_tail(u, merge, filled)),
        leads(env, p, u, st) && is_small(emission::cache_tail(u, merge, filled)) && is_fresh(u, merge, st) && place(u, st) != Some(merge) && merge >= p.ops.len() && kind(
            u,
            filled,
            st,
        ) is Value ==> {
            let t = emission::cache_tail(u, merge, filled);
            &&& leads(env, p, t, st)
            &&& keeps(u, t, st)
        },
{
    let op = OpView::Jump { block: merge, args: seq![filled] };
    let t = emission::cache_tail(u, merge, filled);
    if leads(env, p, u, st) && is_small(t) && is_fresh(u, merge, st) && place(u, st) != Some(merge) && merge >= p.ops.len() && kind(u, filled, st) is Value {
        assert(replay::values_at(desk(u.ops, st), seq![filled]));
        assert(replay::ready(desk(u.ops, st), op, st)) by {
            reveal(replay::ready);
        }
        hops(env, u, op, merge, st);
        leads_over(env, p, u, t, st);
    }
}

proof fn stays_fresh(env: EnvView, p: PlanView, t: PlanView, b: usize, st: SettingView)
    requires
        is_under_way(env, p, st),
        keeps(p, t, st),
        is_fresh(p, b, st),
        place(p, st) != Some(b),
    ensures
        is_fresh(t, b, st),
{
    assert(b < p.ops.len());
    assert(kind(t, b, st) == kind(p, b, st));
    assert(is_touched(t, b as int, st) == is_touched(p, b as int, st));
    assert(is_filled(t, b as int, st) == is_filled(p, b as int, st));
}

proof fn caches_keyword(env: EnvView, p: PlanView, text: Seq<char>, st: SettingView)
    ensures
        grows(p, emission::keyword_ic(p, text).0),
        at_work(env, p, st) && is_small(emission::keyword_ic(p, text).0) ==> {
            let (t, x) = emission::keyword_ic(p, text);
            leads(env, p, t, st) && gives_ptr(t, x, st)
        },
{
    let (s1, slot, merge, param) = emission::cache_head(p);
    let (s2, ptr, len) = emission::text_ptr(s1, text);
    let (s3, filled) = emission::call_rt(s2, RtFn::KwIcFill, seq![ptr, len, slot]);
    let t = emission::cache_tail(s3, merge, filled);
    heads_cache(env, p, st);
    addresses_text(env, s1, text, st);
    calls_rt(env, s2, RtFn::KwIcFill, seq![ptr, len, slot], st);
    tails_cache(env, p, s3, merge, filled, st);
    if at_work(env, p, st) && is_small(t) {
        leads_on(env, p, s1, s2, st);
        leads_on(env, p, s2, s3, st);
        stays_fresh(env, s1, s2, merge, st);
        stays_fresh(env, s2, s3, merge, st);
        assert(kind(t, param, st) == kind(s3, param, st));
    }
}

proof fn boxes_const(env: EnvView, p: PlanView, c: Const, st: SettingView)
    ensures
        grows(p, emission::boxed_const(p, c).0),
        at_work(env, p, st) && is_small(emission::boxed_const(p, c).0) ==> {
            let (t, x) = emission::boxed_const(p, c);
            leads(env, p, t, st) && gives_ptr(t, x, st)
        },
{
    let t = emission::boxed_const(p, c).0;
    reveal(replay::ready);
    match c {
        Const::Nil => calls_rt(env, p, RtFn::ConstNil, Seq::empty(), st),
        Const::Bool(b) => calls_rt(env, p, if b { RtFn::ConstTrue } else { RtFn::ConstFalse }, Seq::empty(), st),
        Const::Long(n) => {
            let (s1, func) = emission::req(p, OpView::ImportRt(RtFn::ConstLong));
            let (s2, arg) = emission::iconst64(s1, n);
            imports_rt(env, p, RtFn::ConstLong, st);
            yields_const(env, s1, ClifTy::I64, n, st);
            leads_on(env, p, s1, s2, st);
            calls(env, s2, func, seq![arg], st);
            leads_on(env, p, s2, t, st);
        },
        Const::Double(bits) => {
            let (s1, func) = emission::req(p, OpView::ImportRt(RtFn::ConstDouble));
            let (s2, arg) = emission::req(s1, OpView::F64const(bits));
            imports_rt(env, p, RtFn::ConstDouble, st);
            plain_step(env, s1, OpView::F64const(bits), st);
            leads_on(env, p, s1, s2, st);
            calls(env, s2, func, seq![arg], st);
            leads_on(env, p, s2, t, st);
        },
        Const::Char(ch) => {
            let (s1, func) = emission::req(p, OpView::ImportRt(RtFn::ConstChar));
            let (s2, arg) = emission::req(s1, OpView::Iconst { ty: ClifTy::I32, value: (ch as u32) as i64 });
            imports_rt(env, p, RtFn::ConstChar, st);
            yields_const(env, s1, ClifTy::I32, (ch as u32) as i64, st);
            leads_on(env, p, s1, s2, st);
            calls(env, s2, func, seq![arg], st);
            leads_on(env, p, s2, t, st);
        },
        Const::Str(text) => {
            let (s1, ptr, len) = emission::text_ptr(p, text@);
            addresses_text(env, p, text@, st);
            calls_rt(env, s1, RtFn::ConstString, seq![ptr, len], st);
            leads_on(env, p, s1, t, st);
        },
        Const::Keyword(text) => caches_keyword(env, p, text@, st),
        Const::Symbol(text) => {
            let (s1, ptr, len) = emission::text_ptr(p, text@);
            addresses_text(env, p, text@, st);
            calls_rt(env, s1, RtFn::ConstSymbol, seq![ptr, len], st);
            leads_on(env, p, s1, t, st);
        },
    }
}

/// A variable that is not boxed is of the representation.
pub open spec fn fits(env: EnvView, v: VarId, r: Repr) -> bool {
    emission::repr_of(env, v) == Repr::Boxed || emission::repr_of(env, v) == r
}

proof fn yields_constant(env: EnvView, p: PlanView, dst: VarId, c: Const, st: SettingView)
    requires
        fits(env, dst, typeinfer::const_repr(c)),
    ensures
        grows(p, emission::constant(env, p, dst, c).0),
        at_work(env, p, st) && is_small(emission::constant(env, p, dst, c).0) ==> {
            let (t, x) = emission::constant(env, p, dst, c);
            leads(env, p, t, st) && gives(t, x, var_ty(env, dst, st), st)
        },
{
    boxes_const(env, p, c, st);
    match c {
        Const::Long(n) => yields_const(env, p, ClifTy::I64, n, st),
        Const::Double(bits) => {
            plain_step(env, p, OpView::F64const(bits), st);
            reveal(replay::ready);
        },
        Const::Bool(b) => yields_const(env, p, ClifTy::I8, if b { 1 } else { 0 }, st),
        _ => {},
    }
}

proof fn addresses_names(env: EnvView, p: PlanView, ns: Seq<char>, name: Seq<char>, st: SettingView)
    ensures
        grows(p, emission::qualified_ptr(p, ns, name).0),
        at_work(env, p, st) && is_small(emission::qualified_ptr(p, ns, name).0) ==> {
            let (t, xs) = emission::qualified_ptr(p, ns, name);
            &&& leads(env, p, t, st)
            &&& place(t, st) == place(p, st)
            &&& all_give(t, xs, st)
        },
{
    let (s1, ns_data) = emission::req(p, OpView::TextData(ns));
    let (s2, name_data) = emission::req(s1, OpView::TextData(name));
    let (s3, ns_ptr) = emission::req(s2, OpView::DataAddr(ns_data));
    let (s4, ns_len) = emission::iconst64(s3, emission::byte_len(ns));
    let (s5, name_ptr) = emission::req(s4, OpView::DataAddr(name_data));
    let (s6, name_len) = emission::iconst64(s5, emission::byte_len(name));
    reveal(replay::ready);
    plain_step(env, p, OpView::TextData(ns), st);
    plain_step(env, s1, OpView::TextData(name), st);
    leads_on(env, p, s1, s2, st);
    plain_step(env, s2, OpView::DataAddr(ns_data), st);
    leads_on(env, p, s2, s3, st);
    yields_const(env, s3, ClifTy::I64, emission::byte_len(ns), st);
    leads_on(env, p, s3, s4, st);
    plain_step(env, s4, OpView::DataAddr(name_data), st);
    leads_on(env, p, s4, s5, st);
    yields_const(env, s5, ClifTy::I64, emission::byte_len(name), st);
    leads_on(env, p, s5, s6, st);
    if at_work(env, p, st) && is_small(s6) {
        assert(kind(s2, ns_data, st) == Kind::Data);
        assert(kind(s3, name_data, st) == Kind::Data);
        assert(kind(s4, name_data, st) == Kind::Data);
        assert(gives_ptr(s3, ns_ptr, st));
        assert(gives_ptr(s4, ns_ptr, st));
        assert(gives_ptr(s5, ns_ptr, st));
        assert(gives_ptr(s6, ns_ptr, st));
        assert(kind(s5, ns_len, st) is Value);
        assert(kind(s6, ns_len, st) is Value);
        assert(gives_ptr(s6, name_ptr, st));
        assert(kind(s6, name_len, st) is Value);
    }
}

proof fn caches_pinned(env: EnvView, p: PlanView, ns: Seq<char>, name: Seq<char>, st: SettingView)
    ensures
        grows(p, emission::versioned_ic(p, ns, name).0),
        at_work(env, p, st) && is_small(emission::versioned_ic(p, ns, name).0) ==> {
            let (t, x) = emission::versioned_ic(p, ns, name);
            leads(env, p, t, st) && gives_ptr(t, x, st)
        },
{
    let (s1, slot, merge, param) = emission::cache_head(p);
    let (s2, ns_ptr, ns_len) = emission::text_ptr(s1, ns);
    let (s3, name_ptr, name_len) = emission::text_ptr(s2, name);
    let args = seq![ns_ptr, ns_len, name_ptr, name_len, slot];
    let (s4, filled) = emission::call_rt(s3, RtFn::LoadGlobalVersionedIc, args);
    let t = emission::cache_tail(s4, merge, filled);
    heads_cache(env, p, st);
    addresses_text(env, s1, ns, st);
    addresses_text(env, s2, name, st);
    calls_rt(env, s3, RtFn::LoadGlobalVersionedIc, args, st);
    tails_cache(env, p, s4, merge, filled, st);
    if at_work(env, p, st) && is_small(t) {
        leads_on(env, p, s1, s2, st);
        leads_on(env, p, s2, s3, st);
        leads_on(env, p, s3, s4, st);
        stays_fresh(env, s1, s2, merge, st);
        stays_fresh(env, s2, s3, merge, st);
        stays_fresh(env, s3, s4, merge, st);
        assert(kind(t, param, st) == kind(s4, param, st));
    }
}

proof fn loads_global(env: EnvView, p: PlanView, ns: Seq<char>, name: Seq<char>, st: SettingView)
    ensures
        grows(p, emission::load_global(env, p, ns, name).0),
        grows(p, emission::load_var(p, ns, name).0),
        at_work(env, p, st) && is_small(emission::load_global(env, p, ns, name).0) ==> {
            let (t, x) = emission::load_global(env, p, ns, name);
            leads(env, p, t, st) && gives_ptr(t, x, st)
        },
        at_work(env, p, st) && is_small(emission::load_var(p, ns, name).0) ==> {
            let (t, x) = emission::load_var(p, ns, name);
            leads(env, p, t, st) && gives_ptr(t, x, st)
        },
{
    let (s1, args) = emission::qualified_ptr(p, ns, name);
    caches_pinned(env, p, ns, name, st);
    addresses_names(env, p, ns, name, st);
    calls_rt(env, s1, RtFn::LoadGlobal, args, st);
    calls_rt(env, s1, RtFn::LoadVar, args, st);
    leads_on(env, p, s1, emission::call_rt(s1, RtFn::LoadGlobal, args).0, st);
    leads_on(env, p, s1, emission::call_rt(s1, RtFn::LoadVar, args).0, st);
}

proof fn defines_global(env: EnvView, p: PlanView, ns: Seq<char>, name: Seq<char>, val: VarId, st: SettingView)
    ensures
        grows(p, emission::def_var(env, p, ns, name, val).0),
        at_work(env, p, st) && is_small(emission::def_var(env, p, ns, name, val).0) ==> {
            let (t, x) = emission::def_var(env, p, ns, name, val);
            leads(env, p, t, st) && gives_ptr(t, x, st)
        },
{
    let (s1, args) = emission::qualified_ptr(p, ns, name);
    let (s2, x) = emission::use_boxed(env, s1, val);
    let t = emission::call_rt(s2, RtFn::DefVar, args.push(x)).0;
    addresses_names(env, p, ns, name, st);
    uses_boxed(env, s1, val, st);
    calls_rt(env, s2, RtFn::DefVar, args.push(x), st);
    leads_on(env, p, s1, s2, st);
    leads_on(env, p, s2, t, st);
    if at_work(env, p, st) && is_small(t) {
        they_still_give(env, s1, s2, args, st);
        assert(all_give(s2, args.push(x), st));
    }
}

proof fn stores(env: EnvView, p: PlanView, value: usize, slot: usize, cell: Cell, index: usize, st: SettingView)
    ensures
        grows(p, clif::emit(p, OpView::StackStore { value, slot, cell, index })),
        at_work(env, p, st) && is_small(clif::emit(p, OpView::StackStore { value, slot, cell, index })) && kind(p, value, st) is Value && kind(p, slot, st) == Kind::Slot && index
            <= replay::MAX_CELLS ==> {
            let t = clif::emit(p, OpView::StackStore { value, slot, cell, index });
            leads(env, p, t, st) && place(t, st) == place(p, st)
        },
{
    plain_step(env, p, OpView::StackStore { value, slot, cell, index }, st);
    reveal(replay::ready);
}

proof fn stores_all(env: EnvView, p: PlanView, vs: Seq<VarId>, slot: usize, i: int, st: SettingView)
    requires
        0 <= i,
        vs.len() <= replay::MAX_CELLS,
    ensures
        grows(p, emission::store_all(env, p, vs, slot, i)),
        at_work(env, p, st) && is_small(emission::store_all(env, p, vs, slot, i)) && kind(p, slot, st) == Kind::Slot ==> {
            let t = emission::store_all(env, p, vs, slot, i);
            leads(env, p, t, st) && place(t, st) == place(p, st)
        },
    decreases vs.len() - i,
{
    leads_itself(env, p, st);
    if i < vs.len() {
        let (s1, value) = emission::use_boxed(env, p, vs[i]);
        let s2 = clif::emit(s1, OpView::StackStore { value, slot, cell: Cell::Word, index: i as usize });
        let t = emission::store_all(env, s2, vs, slot, i + 1);
        uses_boxed(env, p, vs[i], st);
        stores(env, s1, value, slot, Cell::Word, i as usize, st);
        stores_all(env, s2, vs, slot, i + 1, st);
        leads_on(env, p, s1, s2, st);
        leads_on(env, p, s2, t, st);
        if at_work(env, p, st) && is_small(t) && kind(p, slot, st) == Kind::Slot {
            assert(slot < p.ops.len());
            assert(kind(s1, slot, st) == kind(p, slot, st));
            assert(kind(s2, slot, st) == kind(s1, slot, st));
        }
    }
}

proof fn reserves(env: EnvView, p: PlanView, cell: Cell, count: usize, st: SettingView)
    ensures
        grows(p, emission::req(p, OpView::StackSlot { cell, count }).0),
        at_work(env, p, st) && is_small(emission::req(p, OpView::StackSlot { cell, count }).0) && count <= replay::MAX_CELLS ==> {
            let (t, x) = emission::req(p, OpView::StackSlot { cell, count });
            leads(env, p, t, st) && place(t, st) == place(p, st) && kind(t, x, st) == Kind::Slot
        },
{
    plain_step(env, p, OpView::StackSlot { cell, count }, st);
    reveal(replay::ready);
}

proof fn addresses_slot(env: EnvView, p: PlanView, slot: usize, st: SettingView)
    ensures
        grows(p, emission::req(p, OpView::StackAddr(slot)).0),
        at_work(env, p, st) && is_small(emission::req(p, OpView::StackAddr(slot)).0) && kind(p, slot, st) == Kind::Slot ==> {
            let (t, x) = emission::req(p, OpView::StackAddr(slot));
            leads(env, p, t, st) && place(t, st) == place(p, st) && gives_ptr(t, x, st)
        },
{
    plain_step(env, p, OpView::StackAddr(slot), st);
    reveal(replay::ready);
}

proof fn spills(env: EnvView, p: PlanView, vs: Seq<VarId>, st: SettingView)
    requires
        vs.len() <= replay::MAX_CELLS,
    ensures
        grows(p, emission::spill(env, p, vs).0),
        at_work(env, p, st) && is_small(emission::spill(env, p, vs).0) ==> {
            let (t, x) = emission::spill(env, p, vs);
            leads(env, p, t, st) && place(t, st) == place(p, st) && gives_ptr(t, x, st)
        },
{
    let (s1, slot) = emission::req(p, OpView::StackSlot { cell: Cell::Word, count: vs.len() as usize });
    let s2 = emission::store_all(env, s1, vs, slot, 0);
    let t = emission::req(s2, OpView::StackAddr(slot)).0;
    reserves(env, p, Cell::Word, vs.len() as usize, st);
    stores_all(env, s1, vs, slot, 0, st);
    addresses_slot(env, s2, slot, st);
    leads_on(env, p, s1, s2, st);
    leads_on(env, p, s2, t, st);
}

proof fn spills_counted(env: EnvView, p: PlanView, vs: Seq<VarId>, count: i64, st: SettingView)
    requires
        vs.len() <= replay::MAX_CELLS,
    ensures
        grows(p, emission::spill_counted(env, p, vs, count).0),
        at_work(env, p, st) && is_small(emission::spill_counted(env, p, vs, count).0) ==> {
            let (t, x, n) = emission::spill_counted(env, p, vs, count);
            leads(env, p, t, st) && place(t, st) == place(p, st) && gives_ptr(t, x, st) && kind(t, n, st) is Value
        },
{
    if vs.len() == 0 {
        let (s1, null) = emission::null_ptr(p);
        let (s2, zero) = emission::iconst64(s1, 0);
        yields_const(env, p, ClifTy::Ptr, 0, st);
        yields_const(env, s1, ClifTy::I64, 0, st);
        leads_on(env, p, s1, s2, st);
    } else {
        let (s1, addr) = emission::spill(env, p, vs);
        let (s2, n) = emission::iconst64(s1, count);
        spills(env, p, vs, st);
        yields_const(env, s1, ClifTy::I64, count, st);
        leads_on(env, p, s1, s2, st);
    }
}

/// The bridge function returns a pointer.
pub open spec fn returns_ptr(f: RtFn) -> bool {
    bridge::rt_result(f) == Some(ClifTy::Ptr)
}

proof fn allocates(env: EnvView, p: PlanView, f: RtFn, elems: Seq<VarId>, st: SettingView)
    requires
        elems.len() <= replay::MAX_CELLS,
        returns_ptr(f),
    ensures
        grows(p, emission::alloc_collection(env, p, f, elems).0),
        at_work(env, p, st) && is_small(emission::alloc_collection(env, p, f, elems).0) ==> {
            let (t, x) = emission::alloc_collection(env, p, f, elems);
            leads(env, p, t, st) && gives_ptr(t, x, st)
        },
{
    let n = elems.len() as usize;
    let t = emission::alloc_collection(env, p, f, elems).0;
    if elems.len() == 0 {
        let (s1, func) = emission::req(p, OpView::ImportRt(f));
        let (s2, null) = emission::null_ptr(s1);
        let (s3, zero) = emission::iconst64(s2, 0);
        imports_rt(env, p, f, st);
        yields_const(env, s1, ClifTy::Ptr, 0, st);
        leads_on(env, p, s1, s2, st);
        yields_const(env, s2, ClifTy::I64, 0, st);
        leads_on(env, p, s2, s3, st);
        calls(env, s3, func, seq![null, zero], st);
        leads_on(env, p, s3, t, st);
    } else {
        let (s1, addr) = emission::spill(env, p, elems);
        let (s2, count) = emission::iconst64(s1, n as i64);
        let (s3, func) = emission::req(s2, OpView::ImportRt(f));
        spills(env, p, elems, st);
        yields_const(env, s1, ClifTy::I64, n as i64, st);
        leads_on(env, p, s1, s2, st);
        imports_rt(env, s2, f, st);
        leads_on(env, p, s2, s3, st);
        if f == RtFn::AllocMap {
            let (s4, pairs) = emission::iconst64(s3, (n / 2) as i64);
            yields_const(env, s3, ClifTy::I64, (n / 2) as i64, st);
            leads_on(env, p, s3, s4, st);
            calls(env, s4, func, seq![addr, pairs], st);
            leads_on(env, p, s4, t, st);
        } else {
            calls(env, s3, func, seq![addr, count], st);
            leads_on(env, p, s3, t, st);
        }
    }
}

proof fn allocates_in(env: EnvView, p: PlanView, f: RtFn, region: usize, elems: Seq<VarId>, st: SettingView)
    requires
        elems.len() <= replay::MAX_CELLS,
        returns_ptr(f),
    ensures
        grows(p, emission::region_alloc_collection(env, p, f, region, elems).0),
        at_work(env, p, st) && is_small(emission::region_alloc_collection(env, p, f, region, elems).0) && kind(p, region, st) is Value ==> {
            let (t, x) = emission::region_alloc_collection(env, p, f, region, elems);
            leads(env, p, t, st) && gives_ptr(t, x, st)
        },
{
    let n = elems.len() as usize;
    let t = emission::region_alloc_collection(env, p, f, region, elems).0;
    if elems.len() == 0 {
        let (s1, func) = emission::req(p, OpView::ImportRt(f));
        let (s2, null) = emission::null_ptr(s1);
        let (s3, zero) = emission::iconst64(s2, 0);
        imports_rt(env, p, f, st);
        yields_const(env, s1, ClifTy::Ptr, 0, st);
        leads_on(env, p, s1, s2, st);
        yields_const(env, s2, ClifTy::I64, 0, st);
        leads_on(env, p, s2, s3, st);
        calls(env, s3, func, seq![region, null, zero], st);
        leads_on(env, p, s3, t, st);
    } else {
        let (s1, addr) = emission::spill(env, p, elems);
        let (s2, func) = emission::req(s1, OpView::ImportRt(f));
        let value = if f == RtFn::RegionAllocMap { (n / 2) as i64 } else { n as i64 };
        let (s3, count) = emission::iconst64(s2, value);
        spills(env, p, elems, st);
        imports_rt(env, s1, f, st);
        leads_on(env, p, s1, s2, st);
        yields_const(env, s2, ClifTy::I64, value, st);
        leads_on(env, p, s2, s3, st);
        calls(env, s3, func, seq![region, addr, count], st);
        leads_on(env, p, s3, t, st);
    }
}

proof fn allocates_in_region(env: EnvView, p: PlanView, region: VarId, kd: RegionAllocKind, operands: Seq<VarId>, st: SettingView)
    requires
        operands.len() <= replay::MAX_CELLS,
    ensures
        grows(p, emission::region_alloc(env, p, region, kd, operands).0),
        at_work(env, p, st) && is_small(emission::region_alloc(env, p, region, kd, operands).0) ==> {
            let (t, x) = emission::region_alloc(env, p, region, kd, operands);
            leads(env, p, t, st) && gives_ptr(t, x, st)
        },
{
    let (s1, handle) = emission::use_var(env, p, region);
    let t = emission::region_alloc(env, p, region, kd, operands).0;
    uses_var(env, p, region, st);
    if kd == RegionAllocKind::Cons {
        if operands.len() == 2 {
            let (s2, h) = emission::use_boxed(env, s1, operands[0]);
            let (s3, tl) = emission::use_boxed(env, s2, operands[1]);
            uses_boxed(env, s1, operands[0], st);
            leads_on(env, p, s1, s2, st);
            uses_boxed(env, s2, operands[1], st);
            leads_on(env, p, s2, s3, st);
            calls_rt(env, s3, RtFn::RegionAllocCons, seq![handle, h, tl], st);
            leads_on(env, p, s3, t, st);
        } else {
            calls_rt(env, s1, RtFn::ConstNil, Seq::empty(), st);
            leads_on(env, p, s1, t, st);
        }
    } else {
        allocates_in(env, s1, emission::region_bridge(kd), handle, operands, st);
        leads_on(env, p, s1, t, st);
    }
}

/// A call on raw values gets what its instruction takes.
pub open spec fn is_raw_call(env: EnvView, r: Repr, kf: KnownFn, a: VarId, b: VarId) -> bool {
    (r == Repr::Long || r == Repr::Bool && kf == KnownFn::Eq) ==> emission::repr_of(env, a) == Repr::Long && emission::repr_of(env, b) == Repr::Long
}

/// The requests on floats that calls on raw values are.
pub open spec fn is_float_request(op: OpView, x: usize, y: usize) -> bool {
    match op {
        OpView::Binary { op, a, b } => backend::arith_ty(op) == MachTy::F64 && a == x && b == y,
        OpView::FloatTest { a, b, .. } => a == x && b == y,
        _ => false,
    }
}

proof fn does_floats(env: EnvView, p: PlanView, a: VarId, b: VarId, op: spec_fn(usize, usize) -> OpView, tests: bool, st: SettingView)
    requires
        forall|x: usize, y: usize| is_float_request(#[trigger] op(x, y), x, y) && (op(x, y) is FloatTest == tests),
    ensures
        emission::float_op(env, p, a, b, op) matches Ok((t, x)) ==> {
            &&& grows(p, t)
            &&& at_work(env, p, st) && is_small(t) ==> leads(env, p, t, st) && gives(t, x, if tests { MachTy::I8 } else { MachTy::F64 }, st)
        },
{
    if let Ok((s1, x)) = emission::use_f64(env, p, a) {
        uses_f64(env, p, a, st);
        if let Ok((s2, y)) = emission::use_f64(env, s1, b) {
            uses_f64(env, s1, b, st);
            leads_on(env, p, s1, s2, st);
            let t = clif::emit(s2, op(x, y));
            plain_step(env, s2, op(x, y), st);
            leads_on(env, p, s2, t, st);
            assert(is_float_request(op(x, y), x, y));
            if at_work(env, p, st) && is_small(t) {
                assert(kind(s2, x, st) == kind(s1, x, st));
                reveal(replay::ready);
            }
        }
    }
}

proof fn tests_fit(env: EnvView, p: PlanView, kf: KnownFn, x: usize, y: usize, r: usize, st: SettingView)
    ensures
        grows(p, emission::fit_test(p, kf, x, y, r).0),
        at_work(env, p, st) && is_small(emission::fit_test(p, kf, x, y, r).0) && gives(p, x, MachTy::I64, st) && gives(p, y, MachTy::I64, st) && gives(p, r, MachTy::I64, st) ==> {
            let (t, fits) = emission::fit_test(p, kf, x, y, r);
            leads(env, p, t, st) && gives(t, fits, MachTy::I8, st)
        },
{
    reveal(replay::ready);
    let able = at_work(env, p, st) && is_small(emission::fit_test(p, kf, x, y, r).0) && gives(p, x, MachTy::I64, st) && gives(p, y, MachTy::I64, st) && gives(p, r, MachTy::I64, st);
    if kf == KnownFn::Mul {
        let (s1, high) = emission::req(p, OpView::Binary { op: clif::Arith::Smulhi, a: x, b: y });
        let (s2, one) = emission::iconst64(s1, 1);
        let (s3, sign) = emission::req(s2, OpView::Binary { op: clif::Arith::Smulhi, a: r, b: one });
        let last = OpView::IntTest { cond: clif::IntCond::Equal, a: high, b: sign };
        plain_step(env, p, OpView::Binary { op: clif::Arith::Smulhi, a: x, b: y }, st);
        yields_const(env, s1, ClifTy::I64, 1, st);
        leads_on(env, p, s1, s2, st);
        if able {
            assert(kind(s1, r, st) == kind(p, r, st));
            assert(kind(s2, r, st) == kind(s1, r, st));
            assert(kind(s2, high, st) == kind(s1, high, st));
        }
        plain_step(env, s2, OpView::Binary { op: clif::Arith::Smulhi, a: r, b: one }, st);
        leads_on(env, p, s2, s3, st);
        if able {
            assert(kind(s3, high, st) == kind(s2, high, st));
        }
        plain_step(env, s3, last, st);
        leads_on(env, p, s3, clif::emit(s3, last), st);
    } else {
        let cond = if kf == KnownFn::Add { clif::IntCond::SignedLessThan } else { clif::IntCond::SignedGreaterThan };
        let (s1, less) = emission::req(p, OpView::IntTest { cond: clif::IntCond::SignedLessThan, a: r, b: x });
        let (s2, down) = emission::req(s1, OpView::IntTestImm { cond, a: y, imm: 0 });
        let last = OpView::IntTest { cond: clif::IntCond::Equal, a: less, b: down };
        plain_step(env, p, OpView::IntTest { cond: clif::IntCond::SignedLessThan, a: r, b: x }, st);
        if able {
            assert(kind(s1, y, st) == kind(p, y, st));
        }
        plain_step(env, s1, OpView::IntTestImm { cond, a: y, imm: 0 }, st);
        leads_on(env, p, s1, s2, st);
        if able {
            assert(kind(s2, less, st) == kind(s1, less, st));
        }
        plain_step(env, s2, last, st);
        leads_on(env, p, s2, clif::emit(s2, last), st);
    }
}

#[verifier::rlimit(30)]
proof fn branches_off(env: EnvView, p: PlanView, fits: usize, st: SettingView)
    ensures
        grows(p, emission::overflow_branch(p, fits)),
        at_work(env, p, st) && is_small(emission::overflow_branch(p, fits)) && kind(p, fits, st) is Value ==> leads(env, p, emission::overflow_branch(p, fits), st),
{
    let (s1, over) = emission::req(p, OpView::CreateBlock);
    let (s2, cont) = emission::req(s1, OpView::CreateBlock);
    let branch = OpView::Brif { cond: fits, then_block: cont, then_args: Seq::empty(), else_block: over, else_args: Seq::empty() };
    let s4 = clif::emit(clif::emit(s2, branch), OpView::SwitchTo(over));
    let (s5, error) = emission::call_rt(s4, RtFn::OverflowError, Seq::empty());
    let (s6, nil) = emission::call_rt(s5, RtFn::Throw, seq![error]);
    let t = emission::overflow_branch(p, fits);
    calls_rt(env, s4, RtFn::OverflowError, Seq::empty(), st);
    calls_rt(env, s5, RtFn::Throw, seq![error], st);
    if at_work(env, p, st) && is_small(t) && kind(p, fits, st) is Value {
        assert(replay::ready(desk(p.ops, st), OpView::CreateBlock, st)) by {
            reveal(replay::ready);
        }
        plain_step(env, p, OpView::CreateBlock, st);
        assert(is_fresh(s1, over, st));
        assert(replay::ready(desk(s1.ops, st), OpView::CreateBlock, st)) by {
            reveal(replay::ready);
        }
        plain_step(env, s1, OpView::CreateBlock, st);
        leads_on(env, p, s1, s2, st);
        assert(is_fresh(s2, cont, st));
        stays_fresh(env, s1, s2, over, st);
        assert(kind(s2, fits, st) == kind(p, fits, st));
        branches(env, s2, fits, cont, Seq::empty(), over, Seq::empty(), st);
        hops(env, s2, branch, over, st);
        leads_over(env, p, s2, s4, st);
        stays_fresh(env, s2, s4, cont, st);
        leads_on(env, p, s4, s5, st);
        leads_on(env, p, s5, s6, st);
        leads_on(env, s4, s5, s6, st);
        stays_fresh(env, s4, s6, cont, st);
        hands_back(env, s6, nil, st);
        assert(place(s6, st) != Some(cont));
        hops(env, s6, OpView::Return(nil), cont, st);
        leads_over(env, p, s6, t, st);
    }
}

proof fn checks_arith(env: EnvView, p: PlanView, kf: KnownFn, x: usize, y: usize, st: SettingView)
    ensures
        grows(p, emission::checked_arith(p, kf, x, y).0),
        at_work(env, p, st) && is_small(emission::checked_arith(p, kf, x, y).0) && gives(p, x, MachTy::I64, st) && gives(p, y, MachTy::I64, st) ==> {
            let (t, r) = emission::checked_arith(p, kf, x, y);
            leads(env, p, t, st) && gives(t, r, MachTy::I64, st)
        },
{
    let op = OpView::Binary { op: emission::int_arith(kf), a: x, b: y };
    let (s1, r) = emission::req(p, op);
    let (s2, fits) = emission::fit_test(s1, kf, x, y, r);
    let t = emission::overflow_branch(s2, fits);
    plain_step(env, p, op, st);
    tests_fit(env, s1, kf, x, y, r, st);
    branches_off(env, s2, fits, st);
    if at_work(env, p, st) && is_small(t) && gives(p, x, MachTy::I64, st) && gives(p, y, MachTy::I64, st) {
        assert(replay::ready(desk(p.ops, st), op, st)) by {
            reveal(replay::ready);
        }
        assert(kind(s1, x, st) == kind(p, x, st));
        assert(kind(s1, y, st) == kind(p, y, st));
        leads_on(env, p, s1, s2, st);
        leads_on(env, p, s2, t, st);
        assert(kind(s2, r, st) == kind(s1, r, st));
        assert(kind(t, r, st) == kind(s2, r, st));
    }
}

proof fn calls_raw(env: EnvView, p: PlanView, r: Repr, kf: KnownFn, a: VarId, b: VarId, st: SettingView)
    requires
        is_raw_call(env, r, kf, a, b),
        r != Repr::Boxed,
    ensures
        emission::unboxed_known(env, p, r, kf, a, b) matches Ok((t, x)) ==> {
            &&& grows(p, t)
            &&& at_work(env, p, st) && is_small(t) ==> leads(env, p, t, st) && gives(t, x, backend::machine_ty(emission::clif_ty(r), st.wide), st)
        },
{
    let (s1, x) = emission::use_var(env, p, a);
    let (s2, y) = emission::use_var(env, s1, b);
    uses_var(env, p, a, st);
    uses_var(env, s1, b, st);
    leads_on(env, p, s1, s2, st);
    let test = OpView::IntTest { cond: emission::int_cond(kf), a: x, b: y };
    let same = OpView::IntTest { cond: clif::IntCond::Equal, a: x, b: y };
    checks_arith(env, s2, kf, x, y, st);
    plain_step(env, s2, test, st);
    plain_step(env, s2, same, st);
    leads_on(env, p, s2, emission::checked_arith(s2, kf, x, y).0, st);
    leads_on(env, p, s2, clif::emit(s2, test), st);
    leads_on(env, p, s2, clif::emit(s2, same), st);
    does_floats(env, p, a, b, |x: usize, y: usize| OpView::Binary { op: emission::float_arith(kf), a: x, b: y }, false, st);
    does_floats(env, p, a, b, |x: usize, y: usize| OpView::FloatTest { cond: emission::float_cond(kf), a: x, b: y }, true, st);
    reveal(replay::ready);
    if at_work(env, p, st) && is_small(s2) {
        assert(kind(s2, x, st) == kind(s1, x, st));
    }
}

proof fn swaps(env: EnvView, p: PlanView, args: Seq<VarId>, st: SettingView)
    requires
        2 <= args.len() <= replay::MAX_CELLS,
    ensures
        grows(p, emission::atom_swap(env, p, args).0),
        at_work(env, p, st) && is_small(emission::atom_swap(env, p, args).0) ==> {
            let (t, x) = emission::atom_swap(env, p, args);
            leads(env, p, t, st) && gives_ptr(t, x, st)
        },
{
    let (s1, atom) = emission::use_boxed(env, p, args[0]);
    let (s2, f) = emission::use_boxed(env, s1, args[1]);
    let extra = args.subrange(2, args.len() as int);
    let (s3, ptr, count) = emission::spill_counted(env, s2, extra, (extra.len() as usize) as i64);
    let t = emission::call_rt(s3, RtFn::AtomSwap, seq![atom, f, ptr, count]).0;
    uses_boxed(env, p, args[0], st);
    uses_boxed(env, s1, args[1], st);
    leads_on(env, p, s1, s2, st);
    spills_counted(env, s2, extra, (extra.len() as usize) as i64, st);
    leads_on(env, p, s2, s3, st);
    calls_rt(env, s3, RtFn::AtomSwap, seq![atom, f, ptr, count], st);
    leads_on(env, p, s3, t, st);
    if at_work(env, p, st) && is_small(t) {
        assert(gives_ptr(s2, atom, st));
        assert(gives_ptr(s3, atom, st));
        assert(gives_ptr(s3, f, st));
    }
}

proof fn binds(env: EnvView, p: PlanView, args: Seq<VarId>, st: SettingView)
    requires
        1 <= args.len() <= replay::MAX_CELLS,
    ensures
        grows(p, emission::with_bindings(env, p, args).0),
        at_work(env, p, st) && is_small(emission::with_bindings(env, p, args).0) ==> {
            let (t, x) = emission::with_bindings(env, p, args);
            leads(env, p, t, st) && gives_ptr(t, x, st)
        },
{
    let bindings = args.drop_last();
    let npairs = (bindings.len() / 2) as usize;
    let spilled = if npairs > 0 { bindings } else { Seq::empty() };
    let (s1, body) = emission::use_boxed(env, p, args.last());
    let (s2, ptr, count) = emission::spill_counted(env, s1, spilled, npairs as i64);
    let t = emission::call_rt(s2, RtFn::WithBindings, seq![ptr, count, body]).0;
    uses_boxed(env, p, args.last(), st);
    spills_counted(env, s1, spilled, npairs as i64, st);
    leads_on(env, p, s1, s2, st);
    calls_rt(env, s2, RtFn::WithBindings, seq![ptr, count, body], st);
    leads_on(env, p, s2, t, st);
}

proof fn bridges_return(kf: KnownFn, argc: nat)
    ensures
        emission::variadic_bridge(kf, argc) matches Some(f) ==> returns_ptr(f),
        emission::fixed_bridge(kf) matches Some(f) ==> returns_ptr(f),
{
}

/// The representations of a known call fit: the result is boxed, or the call is one on raw values.
pub open spec fn known_fits(env: EnvView, dst: VarId, kf: KnownFn, args: Seq<VarId>) -> bool {
    emission::repr_of(env, dst) != Repr::Boxed ==> args.len() == 2 && is_raw_call(env, emission::repr_of(env, dst), kf, args[0], args[1])
}

proof fn calls_known(env: EnvView, p: PlanView, dst: VarId, kf: KnownFn, args: Seq<VarId>, st: SettingView)
    requires
        emission::known_ok(kf, args.len()),
        args.len() <= replay::MAX_CELLS,
        known_fits(env, dst, kf, args),
    ensures
        emission::known_call(env, p, dst, kf, args) matches Ok((t, x)) ==> {
            &&& grows(p, t)
            &&& at_work(env, p, st) && is_small(t) ==> leads(env, p, t, st) && gives(t, x, var_ty(env, dst, st), st)
        },
{
    if emission::repr_of(env, dst) != Repr::Boxed && args.len() == 2 {
        calls_raw(env, p, emission::repr_of(env, dst), kf, args[0], args[1], st);
    } else if kf == KnownFn::AtomSwap {
        swaps(env, p, args, st);
    } else if kf == KnownFn::WithBindings {
        binds(env, p, args, st);
    } else {
        bridges_return(kf, args.len());
        match emission::variadic_bridge(kf, args.len()) {
            Some(f) => allocates(env, p, f, args, st),
            None => match emission::fixed_bridge(kf) {
                Some(f) => {
                    let (s1, xs) = emission::use_all_boxed(env, p, args, 0, Seq::empty());
                    let t = emission::call_rt(s1, f, xs).0;
                    uses_all_boxed(env, p, args, 0, Seq::empty(), st);
                    calls_rt(env, s1, f, xs, st);
                    leads_on(env, p, s1, t, st);
                },
                None => calls_rt(env, p, RtFn::ConstNil, Seq::empty(), st),
            },
        }
    }
}

/// The functions that may be called are known to the setting.
pub open spec fn knows(env: EnvView, st: SettingView) -> bool {
    env.funcs == st.users.map_values(|u: (Seq<char>, u32)| u.0)
}

proof fn user_is_there(users: Seq<(Seq<char>, u32)>, name: Seq<char>, i: int, k: int)
    requires
        0 <= i <= k < users.len(),
        users[k].0 == name,
    ensures
        replay::user_at(users, name, i) < users.len(),
    decreases k - i,
{
    if users[i].0 != name {
        user_is_there(users, name, i + 1, k);
    }
}

proof fn imports_user(env: EnvView, p: PlanView, name: Seq<char>, st: SettingView)
    requires
        knows(env, st),
        env.funcs.contains(name),
    ensures
        grows(p, emission::req(p, OpView::ImportUser(name)).0),
        at_work(env, p, st) && is_small(emission::req(p, OpView::ImportUser(name)).0) ==> {
            let (t, x) = emission::req(p, OpView::ImportUser(name));
            leads(env, p, t, st) && place(t, st) == place(p, st) && kind(t, x, st) == Kind::Func(Some(replay::ptr_ty(st)))
        },
{
    let k = choose|k: int| 0 <= k < env.funcs.len() && env.funcs[k] == name;
    user_is_there(st.users, name, 0, k);
    plain_step(env, p, OpView::ImportUser(name), st);
    reveal(replay::ready);
}

proof fn calls_directly(env: EnvView, p: PlanView, what: Seq<char>, name: Seq<char>, args: Seq<VarId>, extra: Seq<usize>, st: SettingView)
    requires
        knows(env, st),
    ensures
        emission::direct_call(env, p, what, name, args, extra) matches Ok((t, x)) ==> {
            &&& grows(p, t)
            &&& at_work(env, p, st) && is_small(t) && all_give(p, extra, st) ==> leads(env, p, t, st) && gives_ptr(t, x, st)
        },
{
    if env.funcs.contains(name) {
        let (s1, func) = emission::req(p, OpView::ImportUser(name));
        let (s2, xs) = emission::use_all_boxed(env, s1, args, 0, Seq::empty());
        let t = emission::req(s2, OpView::Call { func, args: xs + extra }).0;
        imports_user(env, p, name, st);
        uses_all_boxed(env, s1, args, 0, Seq::empty(), st);
        leads_on(env, p, s1, s2, st);
        calls(env, s2, func, xs + extra, st);
        leads_on(env, p, s2, t, st);
        if at_work(env, p, st) && is_small(t) && all_give(p, extra, st) {
            they_still_give(env, p, s2, extra, st);
            assert(all_give(s2, xs + extra, st));
            assert(kind(s2, func, st) == kind(s1, func, st));
        }
    }
}

proof fn calls_unknown(env: EnvView, p: PlanView, callee: VarId, args: Seq<VarId>, st: SettingView)
    requires
        args.len() <= replay::MAX_CELLS,
    ensures
        grows(p, emission::unknown_call(env, p, callee, args).0),
        at_work(env, p, st) && is_small(emission::unknown_call(env, p, callee, args).0) ==> {
            let (t, x) = emission::unknown_call(env, p, callee, args);
            leads(env, p, t, st) && gives_ptr(t, x, st)
        },
{
    let (s1, f) = emission::use_boxed(env, p, callee);
    let t = emission::unknown_call(env, p, callee, args).0;
    uses_boxed(env, p, callee, st);
    if args.len() == 0 {
        let (s2, null) = emission::null_ptr(s1);
        let (s3, zero) = emission::iconst64(s2, 0);
        yields_const(env, s1, ClifTy::Ptr, 0, st);
        leads_on(env, p, s1, s2, st);
        yields_const(env, s2, ClifTy::I64, 0, st);
        leads_on(env, p, s2, s3, st);
        calls_rt(env, s3, RtFn::Call, seq![f, null, zero], st);
        leads_on(env, p, s3, t, st);
    } else {
        let (s2, addr) = emission::spill(env, s1, args);
        let (s3, count) = emission::iconst64(s2, (args.len() as usize) as i64);
        let (s4, data) = emission::req(s3, OpView::ZeroData);
        let (s5, slot) = emission::req(s4, OpView::DataAddr(data));
        spills(env, s1, args, st);
        leads_on(env, p, s1, s2, st);
        yields_const(env, s2, ClifTy::I64, (args.len() as usize) as i64, st);
        leads_on(env, p, s2, s3, st);
        plain_step(env, s3, OpView::ZeroData, st);
        leads_on(env, p, s3, s4, st);
        plain_step(env, s4, OpView::DataAddr(data), st);
        leads_on(env, p, s4, s5, st);
        calls_rt(env, s5, RtFn::CallIc, seq![f, addr, count, slot], st);
        leads_on(env, p, s5, t, st);
        if at_work(env, p, st) && is_small(t) {
            reveal(replay::ready);
            assert(gives_ptr(s2, f, st));
            assert(gives_ptr(s3, f, st));
            assert(gives_ptr(s4, f, st));
            assert(gives_ptr(s5, f, st));
            assert(gives_ptr(s3, addr, st));
            assert(gives_ptr(s4, addr, st));
            assert(gives_ptr(s5, addr, st));
            assert(kind(s4, count, st) is Value);
            assert(kind(s5, count, st) is Value);
        }
    }
}

proof fn addresses_func(env: EnvView, p: PlanView, name: Seq<char>, st: SettingView)
    requires
        knows(env, st),
    ensures
        emission::func_ptr(env, p, name) matches Ok((t, x)) ==> {
            &&& grows(p, t)
            &&& at_work(env, p, st) && is_small(t) ==> leads(env, p, t, st) && place(t, st) == place(p, st) && gives_ptr(t, x, st)
        },
{
    if env.funcs.contains(name) {
        let (s1, func) = emission::req(p, OpView::ImportUser(name));
        let t = emission::req(s1, OpView::FuncAddr(func)).0;
        imports_user(env, p, name, st);
        plain_step(env, s1, OpView::FuncAddr(func), st);
        leads_on(env, p, s1, t, st);
        reveal(replay::ready);
    }
}

proof fn stores_funcs(env: EnvView, p: PlanView, names: Seq<String>, slot: usize, i: int, st: SettingView)
    requires
        knows(env, st),
        0 <= i,
        names.len() <= replay::MAX_CELLS,
    ensures
        emission::store_funcs(env, p, names, slot, i) matches Ok(t) ==> {
            &&& grows(p, t)
            &&& at_work(env, p, st) && is_small(t) && kind(p, slot, st) == Kind::Slot ==> leads(env, p, t, st) && place(t, st) == place(p, st)
        },
    decreases names.len() - i,
{
    leads_itself(env, p, st);
    if i < names.len() {
        addresses_func(env, p, names[i]@, st);
        if let Ok((s1, value)) = emission::func_ptr(env, p, names[i]@) {
            let s2 = clif::emit(s1, OpView::StackStore { value, slot, cell: Cell::Word, index: i as usize });
            stores(env, s1, value, slot, Cell::Word, i as usize, st);
            stores_funcs(env, s2, names, slot, i + 1, st);
            leads_on(env, p, s1, s2, st);
            if let Ok(t) = emission::store_funcs(env, s2, names, slot, i + 1) {
                leads_on(env, p, s2, t, st);
                if at_work(env, p, st) && is_small(t) && kind(p, slot, st) == Kind::Slot {
                    assert(kind(s1, slot, st) == kind(p, slot, st));
                    assert(kind(s2, slot, st) == kind(s1, slot, st));
                }
            }
        }
    }
}

proof fn stores_counts(env: EnvView, p: PlanView, counts: Seq<usize>, slot: usize, i: int, st: SettingView)
    requires
        0 <= i,
        counts.len() <= replay::MAX_CELLS,
    ensures
        grows(p, emission::store_counts(p, counts, slot, i)),
        at_work(env, p, st) && is_small(emission::store_counts(p, counts, slot, i)) && kind(p, slot, st) == Kind::Slot ==> {
            let t = emission::store_counts(p, counts, slot, i);
            leads(env, p, t, st) && place(t, st) == place(p, st)
        },
    decreases counts.len() - i,
{
    leads_itself(env, p, st);
    if i < counts.len() {
        let (s1, value) = emission::iconst64(p, counts[i] as i64);
        let s2 = clif::emit(s1, OpView::StackStore { value, slot, cell: Cell::Word, index: i as usize });
        let t = emission::store_counts(s2, counts, slot, i + 1);
        yields_const(env, p, ClifTy::I64, counts[i] as i64, st);
        stores(env, s1, value, slot, Cell::Word, i as usize, st);
        stores_counts(env, s2, counts, slot, i + 1, st);
        leads_on(env, p, s1, s2, st);
        leads_on(env, p, s2, t, st);
        if at_work(env, p, st) && is_small(t) && kind(p, slot, st) == Kind::Slot {
            assert(kind(s1, slot, st) == kind(p, slot, st));
            assert(kind(s2, slot, st) == kind(s1, slot, st));
        }
    }
}

proof fn stores_flags(env: EnvView, p: PlanView, flags: Seq<bool>, slot: usize, i: int, st: SettingView)
    requires
        0 <= i,
        flags.len() <= replay::MAX_CELLS,
    ensures
        grows(p, emission::store_flags(p, flags, slot, i)),
        at_work(env, p, st) && is_small(emission::store_flags(p, flags, slot, i)) && kind(p, slot, st) == Kind::Slot ==> {
            let t = emission::store_flags(p, flags, slot, i);
            leads(env, p, t, st) && place(t, st) == place(p, st)
        },
    decreases flags.len() - i,
{
    leads_itself(env, p, st);
    if i < flags.len() {
        let n: i64 = if flags[i] { 1 } else { 0 };
        let (s1, value) = emission::req(p, OpView::Iconst { ty: ClifTy::I8, value: n });
        let s2 = clif::emit(s1, OpView::StackStore { value, slot, cell: Cell::Byte, index: i as usize });
        let t = emission::store_flags(s2, flags, slot, i + 1);
        yields_const(env, p, ClifTy::I8, n, st);
        stores(env, s1, value, slot, Cell::Byte, i as usize, st);
        stores_flags(env, s2, flags, slot, i + 1, st);
        leads_on(env, p, s1, s2, st);
        leads_on(env, p, s2, t, st);
        if at_work(env, p, st) && is_small(t) && kind(p, slot, st) == Kind::Slot {
            assert(kind(s1, slot, st) == kind(p, slot, st));
            assert(kind(s2, slot, st) == kind(s1, slot, st));
        }
    }
}

/// The parts of a closure are no more than a stack slot has cells.
pub open spec fn is_modest_template(t: ClosureTemplate) -> bool {
    t.arity_fn_names@.len() <= replay::MAX_CELLS && t.param_counts@.len() <= replay::MAX_CELLS && t.is_variadic@.len() <= replay::MAX_CELLS
}

/// The tables of a closure with several arities.
proof fn tabulates(env: EnvView, p: PlanView, c: ClosureTemplate, st: SettingView)
    requires
        knows(env, st),
        is_modest_template(c),
    ensures
        ({
            let n = c.arity_fn_names@.len() as usize;
            let (s3, func_slot) = emission::req(p, OpView::StackSlot { cell: Cell::Word, count: n });
            emission::store_funcs(env, s3, c.arity_fn_names@, func_slot, 0) matches Ok(s4) ==> {
                let (s5, funcs) = emission::req(s4, OpView::StackAddr(func_slot));
                let (s6, count_slot) = emission::req(s5, OpView::StackSlot { cell: Cell::Word, count: n });
                let s7 = emission::store_counts(s6, c.param_counts@, count_slot, 0);
                let (s8, counts) = emission::req(s7, OpView::StackAddr(count_slot));
                let (s9, flag_slot) = emission::req(s8, OpView::StackSlot { cell: Cell::Byte, count: n });
                let s10 = emission::store_flags(s9, c.is_variadic@, flag_slot, 0);
                let (s11, flags) = emission::req(s10, OpView::StackAddr(flag_slot));
                &&& grows(p, s11)
                &&& at_work(env, p, st) && is_small(s11) ==> leads(env, p, s11, st) && gives_ptr(s11, funcs, st) && gives_ptr(s11, counts, st) && gives_ptr(s11, flags, st)
            }
        }),
{
    let n = c.arity_fn_names@.len() as usize;
    let (s3, func_slot) = emission::req(p, OpView::StackSlot { cell: Cell::Word, count: n });
    reserves(env, p, Cell::Word, n, st);
    stores_funcs(env, s3, c.arity_fn_names@, func_slot, 0, st);
    if let Ok(s4) = emission::store_funcs(env, s3, c.arity_fn_names@, func_slot, 0) {
        let (s5, funcs) = emission::req(s4, OpView::StackAddr(func_slot));
        let (s6, count_slot) = emission::req(s5, OpView::StackSlot { cell: Cell::Word, count: n });
        let s7 = emission::store_counts(s6, c.param_counts@, count_slot, 0);
        let (s8, counts) = emission::req(s7, OpView::StackAddr(count_slot));
        let (s9, flag_slot) = emission::req(s8, OpView::StackSlot { cell: Cell::Byte, count: n });
        let s10 = emission::store_flags(s9, c.is_variadic@, flag_slot, 0);
        let (s11, flags) = emission::req(s10, OpView::StackAddr(flag_slot));
        leads_on(env, p, s3, s4, st);
        addresses_slot(env, s4, func_slot, st);
        leads_on(env, p, s4, s5, st);
        reserves(env, s5, Cell::Word, n, st);
        leads_on(env, p, s5, s6, st);
        stores_counts(env, s6, c.param_counts@, count_slot, 0, st);
        leads_on(env, p, s6, s7, st);
        addresses_slot(env, s7, count_slot, st);
        leads_on(env, p, s7, s8, st);
        reserves(env, s8, Cell::Byte, n, st);
        leads_on(env, p, s8, s9, st);
        stores_flags(env, s9, c.is_variadic@, flag_slot, 0, st);
        leads_on(env, p, s9, s10, st);
        addresses_slot(env, s10, flag_slot, st);
        leads_on(env, p, s10, s11, st);
        if at_work(env, p, st) && is_small(s11) {
            assert(kind(s4, func_slot, st) == Kind::Slot);
            assert(kind(s7, count_slot, st) == Kind::Slot);
            assert(kind(s10, flag_slot, st) == Kind::Slot);
            assert(gives_ptr(s6, funcs, st));
            assert(gives_ptr(s7, funcs, st));
            assert(gives_ptr(s8, funcs, st));
            assert(gives_ptr(s9, funcs, st));
            assert(gives_ptr(s10, funcs, st));
            assert(gives_ptr(s9, counts, st));
            assert(gives_ptr(s10, counts, st));
        }
    }
}

proof fn closes(env: EnvView, p: PlanView, c: ClosureTemplate, captures: Seq<VarId>, st: SettingView)
    requires
        knows(env, st),
        emission::template_ok(c),
        is_modest_template(c),
        captures.len() <= replay::MAX_CELLS,
    ensures
        emission::closure(env, p, c, captures) matches Ok((t, x)) ==> {
            &&& grows(p, t)
            &&& at_work(env, p, st) && is_small(t) ==> leads(env, p, t, st) && gives_ptr(t, x, st)
        },
{
    let names = c.arity_fn_names@;
    let n = names.len() as usize;
    if names.len() == 0 {
        calls_rt(env, p, RtFn::ConstNil, Seq::empty(), st);
    } else {
        let (s1, name, name_len) = emission::text_ptr(p, emission::closure_name(c));
        let ncap = (captures.len() as usize) as i64;
        let (s2, caps, ncaps) = emission::spill_counted(env, s1, captures, ncap);
        addresses_text(env, p, emission::closure_name(c), st);
        spills_counted(env, s1, captures, ncap, st);
        leads_on(env, p, s1, s2, st);
        if names.len() == 1 {
            addresses_func(env, s2, names[0]@, st);
            if let Ok((s3, func)) = emission::func_ptr(env, s2, names[0]@) {
                leads_on(env, p, s2, s3, st);
                let (s4, count) = emission::iconst64(s3, c.param_counts@[0] as i64);
                let f = if c.is_variadic@[0] { RtFn::MakeFnVariadic } else { RtFn::MakeFn };
                let args = seq![name, name_len, func, count, caps, ncaps];
                let t = emission::call_rt(s4, f, args).0;
                yields_const(env, s3, ClifTy::I64, c.param_counts@[0] as i64, st);
                leads_on(env, p, s3, s4, st);
                calls_rt(env, s4, f, args, st);
                leads_on(env, p, s4, t, st);
                if at_work(env, p, st) && is_small(t) {
                    assert(gives_ptr(s2, name, st) && kind(s2, name_len, st) is Value);
                    assert(gives_ptr(s3, name, st) && kind(s3, name_len, st) is Value && gives_ptr(s3, caps, st) && kind(s3, ncaps, st) is Value);
                    assert(gives_ptr(s4, name, st) && kind(s4, name_len, st) is Value && gives_ptr(s4, caps, st) && kind(s4, ncaps, st) is Value && gives_ptr(s4, func, st));
                }
            }
        } else {
            let (s3, func_slot) = emission::req(s2, OpView::StackSlot { cell: Cell::Word, count: n });
            tabulates(env, s2, c, st);
            if let Ok(s4) = emission::store_funcs(env, s3, names, func_slot, 0) {
                let (s5, funcs) = emission::req(s4, OpView::StackAddr(func_slot));
                let (s6, count_slot) = emission::req(s5, OpView::StackSlot { cell: Cell::Word, count: n });
                let s7 = emission::store_counts(s6, c.param_counts@, count_slot, 0);
                let (s8, counts) = emission::req(s7, OpView::StackAddr(count_slot));
                let (s9, flag_slot) = emission::req(s8, OpView::StackSlot { cell: Cell::Byte, count: n });
                let s10 = emission::store_flags(s9, c.is_variadic@, flag_slot, 0);
                let (s11, flags) = emission::req(s10, OpView::StackAddr(flag_slot));
                let (s12, arities) = emission::iconst64(s11, n as i64);
                let args = seq![name, name_len, funcs, counts, flags, arities, caps, ncaps];
                let t = emission::call_rt(s12, RtFn::MakeFnMulti, args).0;
                leads_on(env, p, s2, s11, st);
                yields_const(env, s11, ClifTy::I64, n as i64, st);
                leads_on(env, p, s11, s12, st);
                calls_rt(env, s12, RtFn::MakeFnMulti, args, st);
                leads_on(env, p, s12, t, st);
                if at_work(env, p, st) && is_small(t) {
                    assert(gives_ptr(s2, name, st) && kind(s2, name_len, st) is Value);
                    assert(gives_ptr(s11, name, st) && kind(s11, name_len, st) is Value && gives_ptr(s11, caps, st) && kind(s11, ncaps, st) is Value);
                    assert(gives_ptr(s12, name, st) && kind(s12, name_len, st) is Value && gives_ptr(s12, caps, st) && kind(s12, ncaps, st) is Value);
                    assert(gives_ptr(s12, funcs, st) && gives_ptr(s12, counts, st) && gives_ptr(s12, flags, st));
                }
            }
        }
    }
}

/// The lists of an instruction are no longer than a stack slot has cells.
pub open spec fn is_modest(inst: Inst) -> bool {
    match inst {
        Inst::AllocVector(_, vs) | Inst::AllocSet(_, vs) | Inst::AllocList(_, vs) => vs@.len() <= replay::MAX_CELLS,
        Inst::AllocMap(_, pairs) => 2 * pairs@.len() <= replay::MAX_CELLS,
        Inst::AllocClosure(_, t, vs) => is_modest_template(t) && vs@.len() <= replay::MAX_CELLS,
        Inst::CallKnown(_, _, vs) => vs@.len() <= replay::MAX_CELLS,
        Inst::Call(_, _, vs) => vs@.len() <= replay::MAX_CELLS,
        Inst::RegionAlloc(_, _, _, vs) => vs@.len() <= replay::MAX_CELLS,
        _ => true,
    }
}

/// The representation of what an instruction defines fits what it computes.
pub open spec fn inst_fits(env: EnvView, inst: Inst) -> bool {
    match inst {
        Inst::Const(dst, c) => fits(env, dst, typeinfer::const_repr(c)),
        Inst::CallKnown(dst, kf, args) => known_fits(env, dst, kf, args@),
        Inst::Phi(_, _) => true,
        _ => inst.spec_dst() matches Some(dst) ==> emission::repr_of(env, dst) == Repr::Boxed,
    }
}

/// The region parameter is there, where one is named.
pub open spec fn region_is_there(env: EnvView, p: PlanView, st: SettingView) -> bool {
    env.region matches Some(x) ==> gives_ptr(p, x, st)
}

proof fn computes(env: EnvView, p: PlanView, inst: Inst, st: SettingView)
    requires
        knows(env, st),
        emission::inst_ok(inst),
        is_modest(inst),
        inst_fits(env, inst),
        inst.spec_dst() is Some,
        !(inst is Phi),
    ensures
        emission::inst_value(env, p, inst) matches Ok((t, x)) ==> {
            &&& grows(p, t)
            &&& at_work(env, p, st) && is_small(t) && region_is_there(env, p, st) ==> leads(env, p, t, st) && gives(t, x, var_ty(env, inst.spec_dst()->0, st), st)
        },
{
    leads_itself(env, p, st);
    match inst {
        Inst::Const(dst, c) => yields_constant(env, p, dst, c, st),
        Inst::LoadLocal(_, _) => calls_rt(env, p, RtFn::ConstNil, Seq::empty(), st),
        Inst::LoadGlobal(_, ns, name) => loads_global(env, p, ns@, name@, st),
        Inst::LoadVar(_, ns, name) => loads_global(env, p, ns@, name@, st),
        Inst::AllocVector(_, elems) => allocates(env, p, RtFn::AllocVector, elems@, st),
        Inst::AllocMap(_, pairs) => allocates(env, p, RtFn::AllocMap, emission::flat(pairs@), st),
        Inst::AllocSet(_, elems) => allocates(env, p, RtFn::AllocSet, elems@, st),
        Inst::AllocList(_, elems) => allocates(env, p, RtFn::AllocList, elems@, st),
        Inst::AllocCons(_, head, tail) => {
            let (s1, h) = emission::use_boxed(env, p, head);
            let (s2, tl) = emission::use_boxed(env, s1, tail);
            let t = emission::call_rt(s2, RtFn::AllocCons, seq![h, tl]).0;
            uses_boxed(env, p, head, st);
            uses_boxed(env, s1, tail, st);
            leads_on(env, p, s1, s2, st);
            calls_rt(env, s2, RtFn::AllocCons, seq![h, tl], st);
            leads_on(env, p, s2, t, st);
        },
        Inst::AllocClosure(_, c, captures) => closes(env, p, c, captures@, st),
        Inst::CallKnown(dst, kf, args) => calls_known(env, p, dst, kf, args@, st),
        Inst::Call(_, callee, args) => calls_unknown(env, p, callee, args@, st),
        Inst::CallDirect(_, name, args) => calls_directly(env, p, "CallDirect"@, name@, args@, Seq::empty(), st),
        Inst::Deref(_, src) => {
            let (s1, x) = emission::use_boxed(env, p, src);
            let t = emission::call_rt(s1, RtFn::Deref, seq![x]).0;
            uses_boxed(env, p, src, st);
            calls_rt(env, s1, RtFn::Deref, seq![x], st);
            leads_on(env, p, s1, t, st);
        },
        Inst::DefVar(_, ns, name, val) => defines_global(env, p, ns@, name@, val, st),
        Inst::RegionStart(_) => calls_rt(env, p, RtFn::RegionStart, Seq::empty(), st),
        Inst::RegionAlloc(_, region, kd, operands) => allocates_in_region(env, p, region, kd, operands@, st),
        Inst::RegionParam(_) => {},
        Inst::CallWithRegion(_, name, args, region) => {
            let (s1, handle) = emission::use_var(env, p, region);
            uses_var(env, p, region, st);
            calls_directly(env, s1, "CallWithRegion"@, name@, args@, seq![handle], st);
            if let Ok((t, x)) = emission::direct_call(env, s1, "CallWithRegion"@, name@, args@, seq![handle]) {
                leads_on(env, p, s1, t, st);
            }
        },
        _ => {},
    }
}

proof fn does(env: EnvView, p: PlanView, inst: Inst, st: SettingView)
    requires
        knows(env, st),
        emission::inst_ok(inst),
        is_modest(inst),
        inst_fits(env, inst),
    ensures
        emission::inst_ops(env, p, inst) matches Ok(t) ==> {
            &&& grows(p, t)
            &&& at_work(env, p, st) && is_small(t) && region_is_there(env, p, st) ==> leads(env, p, t, st)
        },
{
    leads_itself(env, p, st);
    match inst {
        Inst::SetBang(var, val) => {
            let (s1, a) = emission::use_boxed(env, p, var);
            let (s2, b) = emission::use_boxed(env, s1, val);
            let t = emission::call_rt_void(s2, RtFn::SetBang, seq![a, b]);
            uses_boxed(env, p, var, st);
            uses_boxed(env, s1, val, st);
            leads_on(env, p, s1, s2, st);
            calls_rt_void(env, s2, RtFn::SetBang, seq![a, b], st);
            leads_on(env, p, s2, t, st);
        },
        Inst::Throw(val) => {
            let (s1, a) = emission::use_boxed(env, p, val);
            let t = emission::call_rt_void(s1, RtFn::Throw, seq![a]);
            uses_boxed(env, p, val, st);
            calls_rt_void(env, s1, RtFn::Throw, seq![a], st);
            leads_on(env, p, s1, t, st);
        },
        Inst::RegionEnd(region) => {
            let (s1, handle) = emission::use_var(env, p, region);
            let t = emission::call_rt_void(s1, RtFn::RegionEnd, seq![handle]);
            uses_var(env, p, region, st);
            calls_rt_void(env, s1, RtFn::RegionEnd, seq![handle], st);
            leads_on(env, p, s1, t, st);
        },
        Inst::Phi(_, _) | Inst::Recur(_) | Inst::SourceLoc(_) => {},
        _ => {
            if let Some(dst) = inst.spec_dst() {
                computes(env, p, inst, st);
                if let Ok((s1, x)) = emission::inst_value(env, p, inst) {
                    defines(env, s1, dst, x, st);
                    leads_on(env, p, s1, emission::define(env, s1, dst, x), st);
                }
            }
        },
    }
}

proof fn does_all(env: EnvView, p: PlanView, insts: Seq<Inst>, i: int, st: SettingView)
    requires
        knows(env, st),
        0 <= i,
        forall|k: int| 0 <= k < insts.len() ==> emission::inst_ok(#[trigger] insts[k]) && is_modest(insts[k]) && inst_fits(env, insts[k]),
    ensures
        emission::insts_ops(env, p, insts, i) matches Ok(t) ==> {
            &&& grows(p, t)
            &&& at_work(env, p, st) && is_small(t) && region_is_there(env, p, st) ==> leads(env, p, t, st)
        },
    decreases insts.len() - i,
{
    leads_itself(env, p, st);
    if i < insts.len() {
        does(env, p, insts[i], st);
        if let Ok(s1) = emission::inst_ops(env, p, insts[i]) {
            does_all(env, s1, insts, i + 1, st);
            if let Ok(t) = emission::insts_ops(env, s1, insts, i + 1) {
                leads_on(env, p, s1, t, st);
                if at_work(env, p, st) && is_small(t) && region_is_there(env, p, st) {
                    if let Some(x) = env.region {
                        assert(x < p.ops.len());
                        assert(kind(s1, x, st) == kind(p, x, st));
                    }
                }
            }
        }
    }
}

proof fn keeps_on(p: PlanView, u: PlanView, t: PlanView, st: SettingView)
    requires
        keeps(p, u, st),
        keeps(u, t, st),
        place(u, st) == place(p, st) || place(u, st)->0 >= p.ops.len(),
    ensures
        keeps(p, t, st),
{
    assert forall|x: usize| x < p.ops.len() implies #[trigger] kind(t, x, st) == kind(p, x, st) by {
        assert(kind(t, x, st) == kind(u, x, st));
    }
    assert forall|q: int| 0 <= q < p.ops.len() && place(p, st) != Some(q as usize) implies #[trigger] is_touched(t, q, st) == is_touched(p, q, st) by {
        assert(is_touched(t, q, st) == is_touched(u, q, st));
    }
    assert forall|q: int| 0 <= q < p.ops.len() && place(p, st) != Some(q as usize) implies #[trigger] is_filled(t, q, st) == is_filled(p, q, st) by {
        assert(is_filled(t, q, st) == is_filled(u, q, st));
    }
}

proof fn reads_phis(env: EnvView, p: PlanView, phis: Seq<Inst>, from: BlockId, i: int, done: Seq<usize>, st: SettingView)
    requires
        0 <= i,
    ensures
        emission::phi_args(env, p, phis, from, i, done) matches Ok((t, xs)) ==> {
            &&& grows(p, t)
            &&& at_work(env, p, st) && is_small(t) && all_give(p, done, st) ==> leads(env, p, t, st) && place(t, st) == place(p, st) && all_give(t, xs, st)
        },
    decreases phis.len() - i,
{
    leads_itself(env, p, st);
    if i < phis.len() {
        if let Inst::Phi(dst, entries) = phis[i] {
            let k = emission::entry_for(entries@, from, 0);
            if k < entries@.len() {
                coerces(env, p, entries@[k].1, emission::repr_of(env, dst), st);
                if let Ok((s1, x)) = emission::coerce(env, p, entries@[k].1, emission::repr_of(env, dst)) {
                    reads_phis(env, s1, phis, from, i + 1, done.push(x), st);
                    if let Ok((t, xs)) = emission::phi_args(env, s1, phis, from, i + 1, done.push(x)) {
                        leads_on(env, p, s1, t, st);
                        if at_work(env, p, st) && is_small(t) && all_give(p, done, st) {
                            they_still_give(env, p, s1, done, st);
                            assert(all_give(s1, done.push(x), st));
                        }
                    }
                }
            } else {
                reads_phis(env, p, phis, from, i + 1, done, st);
            }
        } else {
            reads_phis(env, p, phis, from, i + 1, done, st);
        }
    }
}

proof fn reads_edge(env: EnvView, p: PlanView, blocks: Seq<Block>, to: BlockId, from: BlockId, st: SettingView)
    ensures
        emission::edge_args(env, p, blocks, to, from) matches Ok((t, xs)) ==> {
            &&& grows(p, t)
            &&& at_work(env, p, st) && is_small(t) ==> leads(env, p, t, st) && place(t, st) == place(p, st) && all_give(t, xs, st)
        },
{
    leads_itself(env, p, st);
    let b = ir::first_block(blocks, to, 0);
    if b < blocks.len() {
        reads_phis(env, p, blocks[b].phis@, from, 0, Seq::empty(), st);
    }
}

proof fn reads_recur(env: EnvView, p: PlanView, args: Seq<VarId>, phis: Seq<Inst>, i: int, done: Seq<usize>, st: SettingView)
    requires
        0 <= i,
    ensures
        emission::recur_args(env, p, args, phis, i, done) matches Ok((t, xs)) ==> {
            &&& grows(p, t)
            &&& at_work(env, p, st) && is_small(t) && all_give(p, done, st) ==> leads(env, p, t, st) && place(t, st) == place(p, st) && all_give(t, xs, st)
        },
    decreases args.len() - i,
{
    leads_itself(env, p, st);
    if i < args.len() && i < phis.len() {
        let r = match phis[i] {
            Inst::Phi(dst, _) => emission::repr_of(env, dst),
            _ => Repr::Boxed,
        };
        coerces(env, p, args[i], r, st);
        if let Ok((s1, x)) = emission::coerce(env, p, args[i], r) {
            reads_recur(env, s1, args, phis, i + 1, done.push(x), st);
            if let Ok((t, xs)) = emission::recur_args(env, s1, args, phis, i + 1, done.push(x)) {
                leads_on(env, p, s1, t, st);
                if at_work(env, p, st) && is_small(t) && all_give(p, done, st) {
                    they_still_give(env, p, s1, done, st);
                    assert(all_give(s1, done.push(x), st));
                }
            }
        }
    }
}

/// The blocks of the plan are blocks.
pub open spec fn blocks_are_there(env: EnvView, p: PlanView, st: SettingView) -> bool {
    forall|id: u32| #[trigger] env.blocks.dom().contains(id) ==> kind(p, env.blocks[id], st) == Kind::Block
}

proof fn blocks_stay(env: EnvView, p: PlanView, t: PlanView, st: SettingView)
    requires
        is_under_way(env, p, st),
        keeps(p, t, st),
        blocks_are_there(env, p, st),
    ensures
        blocks_are_there(env, t, st),
{
    assert forall|id: u32| #[trigger] env.blocks.dom().contains(id) implies kind(t, env.blocks[id], st) == Kind::Block by {
        assert(kind(p, env.blocks[id], st) == Kind::Block);
        assert(env.blocks[id] < p.ops.len());
    }
}

/// The end of a block that began at `p` and has come to `u`.
proof fn comes_to_end(env: EnvView, p: PlanView, u: PlanView, op: OpView, st: SettingView)
    ensures
        grows(u, clif::emit(u, op)),
        leads(env, p, u, st) && is_small(clif::emit(u, op)) && replay::ends(op) && replay::ready(desk(u.ops, st), op, st) ==> {
            &&& at_rest(env, clif::emit(u, op), st)
            &&& keeps(p, clif::emit(u, op), st)
        },
{
    ends_block(env, u, op, st);
    if leads(env, p, u, st) && is_small(clif::emit(u, op)) && replay::ends(op) && replay::ready(desk(u.ops, st), op, st) {
        keeps_on(p, u, clif::emit(u, op), st);
    }
}

proof fn jumps(env: EnvView, u: PlanView, block: usize, args: Seq<usize>, st: SettingView)
    ensures
        at_work(env, u, st) && kind(u, block, st) == Kind::Block && all_give(u, args, st) ==> replay::ready(desk(u.ops, st), OpView::Jump { block, args }, st),
{
    if at_work(env, u, st) && kind(u, block, st) == Kind::Block && all_give(u, args, st) {
        assert(replay::values_at(desk(u.ops, st), args)) by {
            assert forall|i: int| 0 <= i < args.len() implies replay::value_at(desk(u.ops, st), #[trigger] args[i]) by {
                assert(kind(u, args[i], st) is Value);
            }
        }
        reveal(replay::ready);
    }
}

proof fn branches(env: EnvView, u: PlanView, cond: usize, b1: usize, a1: Seq<usize>, b2: usize, a2: Seq<usize>, st: SettingView)
    ensures
        at_work(env, u, st) && kind(u, cond, st) is Value && kind(u, b1, st) == Kind::Block && kind(u, b2, st) == Kind::Block && all_give(u, a1, st) && all_give(u, a2, st)
            ==> replay::ready(desk(u.ops, st), (OpView::Brif { cond, then_block: b1, then_args: a1, else_block: b2, else_args: a2 }), st),
{
    if at_work(env, u, st) && kind(u, cond, st) is Value && kind(u, b1, st) == Kind::Block && kind(u, b2, st) == Kind::Block && all_give(u, a1, st) && all_give(u, a2, st) {
        assert(replay::values_at(desk(u.ops, st), a1)) by {
            assert forall|i: int| 0 <= i < a1.len() implies replay::value_at(desk(u.ops, st), #[trigger] a1[i]) by {
                assert(kind(u, a1[i], st) is Value);
            }
        }
        assert(replay::values_at(desk(u.ops, st), a2)) by {
            assert forall|i: int| 0 <= i < a2.len() implies replay::value_at(desk(u.ops, st), #[trigger] a2[i]) by {
                assert(kind(u, a2[i], st) is Value);
            }
        }
        reveal(replay::ready);
    }
}

proof fn hands_back(env: EnvView, u: PlanView, x: usize, st: SettingView)
    ensures
        at_work(env, u, st) && kind(u, x, st) is Value ==> replay::ready(desk(u.ops, st), OpView::Return(x), st),
{
    reveal(replay::ready);
}

proof fn branch_ends(env: EnvView, p: PlanView, cond: VarId, then_block: BlockId, else_block: BlockId, from: BlockId, blocks: Seq<Block>, st: SettingView)
    requires
        env.blocks.dom().contains(then_block.0),
        env.blocks.dom().contains(else_block.0),
    ensures
        emission::term_ops(env, p, (Terminator::Branch { cond, then_block, else_block }), from, blocks) matches Ok(t) ==> {
            &&& grows(p, t)
            &&& at_work(env, p, st) && is_small(t) && blocks_are_there(env, p, st) ==> at_rest(env, t, st) && keeps(p, t, st)
        },
{
    reads_edge(env, p, blocks, then_block, from, st);
    if let Ok((s1, then_args)) = emission::edge_args(env, p, blocks, then_block, from) {
        reads_edge(env, s1, blocks, else_block, from, st);
        if let Ok((s2, else_args)) = emission::edge_args(env, s1, blocks, else_block, from) {
            leads_on(env, p, s1, s2, st);
            let b1 = env.blocks[then_block.0];
            let b2 = env.blocks[else_block.0];
            let (s3, x) = emission::use_var(env, s2, cond);
            uses_var(env, s2, cond, st);
            leads_on(env, p, s2, s3, st);
            let (s4, t4) = emission::call_rt(s3, RtFn::Truthiness, seq![x]);
            calls_rt(env, s3, RtFn::Truthiness, seq![x], st);
            leads_on(env, p, s3, s4, st);
            match emission::repr_of(env, cond) {
                Repr::Bool => {
                    branches(env, s3, x, b1, then_args, b2, else_args, st);
                    comes_to_end(env, p, s3, OpView::Brif { cond: x, then_block: b1, then_args, else_block: b2, else_args }, st);
                    if at_work(env, p, st) && s3.ops.len() < usize::MAX && blocks_are_there(env, p, st) {
                        blocks_stay(env, p, s3, st);
                        they_still_give(env, s1, s2, then_args, st);
                        they_still_give(env, s2, s3, then_args, st);
                        they_still_give(env, s2, s3, else_args, st);
                    }
                },
                Repr::Boxed => {
                    branches(env, s4, t4, b1, then_args, b2, else_args, st);
                    comes_to_end(env, p, s4, OpView::Brif { cond: t4, then_block: b1, then_args, else_block: b2, else_args }, st);
                    if at_work(env, p, st) && s4.ops.len() < usize::MAX && blocks_are_there(env, p, st) {
                        blocks_stay(env, p, s4, st);
                        they_still_give(env, s1, s2, then_args, st);
                        they_still_give(env, s2, s3, then_args, st);
                        they_still_give(env, s2, s3, else_args, st);
                        they_still_give(env, s3, s4, then_args, st);
                        they_still_give(env, s3, s4, else_args, st);
                    }
                },
                _ => {
                    jumps(env, s2, b1, then_args, st);
                    comes_to_end(env, p, s2, OpView::Jump { block: b1, args: then_args }, st);
                    if at_work(env, p, st) && s2.ops.len() < usize::MAX && blocks_are_there(env, p, st) {
                        blocks_stay(env, p, s2, st);
                        they_still_give(env, s1, s2, then_args, st);
                    }
                },
            }
        }
    }
}

proof fn term_ends(env: EnvView, p: PlanView, term: Terminator, from: BlockId, blocks: Seq<Block>, st: SettingView)
    requires
        emission::term_ok(env.blocks, term),
    ensures
        emission::term_ops(env, p, term, from, blocks) matches Ok(t) ==> {
            &&& grows(p, t)
            &&& at_work(env, p, st) && is_small(t) && blocks_are_there(env, p, st) ==> at_rest(env, t, st) && keeps(p, t, st)
        },
{
    match term {
        Terminator::Return(v) => {
            let (s1, x) = emission::use_boxed(env, p, v);
            uses_boxed(env, p, v, st);
            hands_back(env, s1, x, st);
            comes_to_end(env, p, s1, OpView::Return(x), st);
        },
        Terminator::Jump(target) => {
            reads_edge(env, p, blocks, target, from, st);
            if let Ok((s1, args)) = emission::edge_args(env, p, blocks, target, from) {
                jumps(env, s1, env.blocks[target.0], args, st);
                comes_to_end(env, p, s1, OpView::Jump { block: env.blocks[target.0], args }, st);
                if at_work(env, p, st) && s1.ops.len() < usize::MAX && blocks_are_there(env, p, st) {
                    blocks_stay(env, p, s1, st);
                }
            }
        },
        Terminator::Branch { cond, then_block, else_block } => branch_ends(env, p, cond, then_block, else_block, from, blocks, st),
        Terminator::RecurJump { target, args } => {
            let s1 = emission::call_rt_void(p, RtFn::Safepoint, Seq::empty());
            calls_rt_void(env, p, RtFn::Safepoint, Seq::empty(), st);
            let b = ir::first_block(blocks, target, 0);
            let read = if b < blocks.len() {
                emission::recur_args(env, s1, args@, blocks[b].phis@, 0, Seq::empty())
            } else {
                Ok(emission::use_all_boxed(env, s1, args@, 0, Seq::empty()))
            };
            if b < blocks.len() {
                reads_recur(env, s1, args@, blocks[b].phis@, 0, Seq::empty(), st);
            } else {
                uses_all_boxed(env, s1, args@, 0, Seq::empty(), st);
            }
            if let Ok((s2, xs)) = read {
                leads_on(env, p, s1, s2, st);
                jumps(env, s2, env.blocks[target.0], xs, st);
                comes_to_end(env, p, s2, OpView::Jump { block: env.blocks[target.0], args: xs }, st);
                if at_work(env, p, st) && s2.ops.len() < usize::MAX && blocks_are_there(env, p, st) {
                    blocks_stay(env, p, s2, st);
                }
            }
        },
        Terminator::Unreachable => {
            let (s1, nil) = emission::call_rt(p, RtFn::ConstNil, Seq::empty());
            calls_rt(env, p, RtFn::ConstNil, Seq::empty(), st);
            hands_back(env, s1, nil, st);
            comes_to_end(env, p, s1, OpView::Return(nil), st);
        },
    }
}

proof fn takes_phis(env: EnvView, p: PlanView, block: usize, phis: Seq<Inst>, i: int, st: SettingView)
    requires
        0 <= i,
    ensures
        grows(p, emission::phi_params(env, p, block, phis, i)),
        at_work(env, p, st) && is_small(emission::phi_params(env, p, block, phis, i)) && place(p, st) == Some(block) && !is_touched(p, block as int, st) ==> {
            let t = emission::phi_params(env, p, block, phis, i);
            leads(env, p, t, st) && place(t, st) == Some(block) && !is_touched(t, block as int, st)
        },
    decreases phis.len() - i,
{
    leads_itself(env, p, st);
    if i < phis.len() {
        if let Inst::Phi(dst, _) = phis[i] {
            let s1 = emission::ensure_var(env, p, dst);
            let append = OpView::AppendParam { block, ty: emission::clif_ty(emission::repr_of(env, dst)) };
            let (s2, x) = emission::req(s1, append);
            let def = OpView::DefVar { var: dst, value: x };
            let s3 = clif::emit(s2, def);
            let t = emission::phi_params(env, s3, block, phis, i + 1);
            declares(env, p, dst, st);
            plain_step(env, s1, append, st);
            leads_on(env, p, s1, s2, st);
            plain_step(env, s2, def, st);
            leads_on(env, p, s2, s3, st);
            takes_phis(env, s3, block, phis, i + 1, st);
            leads_on(env, p, s3, t, st);
            if at_work(env, p, st) && is_small(t) && place(p, st) == Some(block) && !is_touched(p, block as int, st) {
                assert(block < p.ops.len());
                assert(!is_touched(s1, block as int, st));
                assert(replay::ready(desk(s1.ops, st), append, st)) by {
                    reveal(replay::ready);
                }
                assert(desk(s2.ops, st).vars.dom().contains(dst.0));
                assert(gives(s2, x, var_ty(env, dst, st), st));
                assert(replay::ready(desk(s2.ops, st), def, st)) by {
                    reveal(replay::ready);
                }
                assert(!is_touched(s2, block as int, st));
                assert(!is_touched(s3, block as int, st));
            }
        } else {
            takes_phis(env, p, block, phis, i + 1, st);
        }
    }
}

/// `t` goes on where `p` ends, and of the blocks that were there nothing changed but one.
pub open spec fn passes(p: PlanView, t: PlanView, block: usize, st: SettingView) -> bool {
    &&& grows(p, t)
    &&& entry(t, st) == entry(p, st)
    &&& forall|x: usize| x < p.ops.len() ==> #[trigger] kind(t, x, st) == kind(p, x, st)
    &&& forall|q: int| 0 <= q < p.ops.len() && q != block ==> #[trigger] is_touched(t, q, st) == is_touched(p, q, st)
    &&& forall|q: int| 0 <= q < p.ops.len() && q != block ==> #[trigger] is_filled(t, q, st) == is_filled(p, q, st)
}

/// The instructions of a block have what they need, in the representations that they need.
pub open spec fn block_fits(env: EnvView, b: Block) -> bool {
    &&& emission::block_ok(env.blocks, b)
    &&& forall|i: int| 0 <= i < b.insts@.len() ==> is_modest(#[trigger] b.insts@[i]) && inst_fits(env, b.insts@[i])
}

/// The block can be begun, or has been.
pub open spec fn is_open_for(env: EnvView, p: PlanView, b: Block, switch: bool, st: SettingView) -> bool {
    if switch {
        at_rest(env, p, st) && is_fresh(p, env.blocks[b.id.0], st)
    } else {
        at_work(env, p, st) && place(p, st) == Some(env.blocks[b.id.0]) && b.phis@.len() == 0
    }
}

proof fn fills_block(env: EnvView, p: PlanView, b: Block, switch: bool, blocks: Seq<Block>, st: SettingView)
    requires
        knows(env, st),
        block_fits(env, b),
    ensures
        emission::block_ops(env, p, b, switch, blocks) matches Ok(t) ==> {
            &&& grows(p, t)
            &&& is_small(t) && blocks_are_there(env, p, st) && region_is_there(env, p, st) && is_open_for(env, p, b, switch, st) ==> at_rest(env, t, st) && passes(
                p,
                t,
                env.blocks[b.id.0],
                st,
            )
        },
{
    let block = env.blocks[b.id.0];
    let s1 = if switch { clif::emit(p, OpView::SwitchTo(block)) } else { p };
    let s2 = emission::phi_params(env, s1, block, b.phis@, 0);
    enters_block(env, p, block, st);
    leads_itself(env, p, st);
    takes_phis(env, s1, block, b.phis@, 0, st);
    does_all(env, s2, b.insts@, 0, st);
    if let Ok(s3) = emission::insts_ops(env, s2, b.insts@, 0) {
        leads_on(env, s1, s2, s3, st);
        term_ends(env, s3, b.terminator, b.id, blocks, st);
        if let Ok(t) = emission::term_ops(env, s3, b.terminator, b.id, blocks) {
            if is_small(t) && blocks_are_there(env, p, st) && region_is_there(env, p, st) && is_open_for(env, p, b, switch, st) {
                assert(at_work(env, s1, st) && place(s1, st) == Some(block));
                assert(block < p.ops.len());
                if switch {
                    assert(!is_touched(s1, block as int, st));
                }
                assert(leads(env, s1, s2, st));
                if let Some(x) = env.region {
                    assert(x < p.ops.len());
                    assert(kind(s1, x, st) == kind(p, x, st));
                    assert(kind(s2, x, st) == kind(s1, x, st));
                }
                assert(leads(env, s1, s3, st));
                assert forall|id: u32| #[trigger] env.blocks.dom().contains(id) implies kind(s3, env.blocks[id], st) == Kind::Block by {
                    assert(kind(p, env.blocks[id], st) == Kind::Block);
                    assert(env.blocks[id] < p.ops.len());
                    assert(kind(s1, env.blocks[id], st) == kind(p, env.blocks[id], st));
                }
                keeps_on(s1, s3, t, st);
                assert forall|x: usize| x < p.ops.len() implies #[trigger] kind(t, x, st) == kind(p, x, st) by {
                    assert(kind(t, x, st) == kind(s1, x, st));
                    assert(kind(s1, x, st) == kind(p, x, st));
                }
                assert forall|q: int| 0 <= q < p.ops.len() && q != block implies #[trigger] is_touched(t, q, st) == is_touched(p, q, st) by {
                    assert(is_touched(t, q, st) == is_touched(s1, q, st));
                    assert(is_touched(s1, q, st) == is_touched(p, q, st));
                }
                assert forall|q: int| 0 <= q < p.ops.len() && q != block implies #[trigger] is_filled(t, q, st) == is_filled(p, q, st) by {
                    assert(is_filled(t, q, st) == is_filled(s1, q, st));
                    assert(is_filled(s1, q, st) == is_filled(p, q, st));
                }
            }
        }
    }
}

/// The blocks of the plan from `i` on have not been begun.
pub open spec fn are_waiting(env: EnvView, p: PlanView, blocks: Seq<Block>, i: int, st: SettingView) -> bool {
    forall|j: int| i <= j < blocks.len() ==> is_fresh(p, env.blocks[(#[trigger] blocks[j]).id.0], st)
}

/// No two blocks of the function share one of the plan.
pub open spec fn are_apart(env: EnvView, blocks: Seq<Block>) -> bool {
    forall|j: int, k: int| 0 <= j < k < blocks.len() ==> env.blocks[(#[trigger] blocks[j]).id.0] != env.blocks[(#[trigger] blocks[k]).id.0]
}

proof fn fills_blocks(env: EnvView, p: PlanView, blocks: Seq<Block>, specialized: bool, i: int, st: SettingView)
    requires
        knows(env, st),
        0 <= i,
        forall|j: int| 0 <= j < blocks.len() ==> block_fits(env, #[trigger] blocks[j]),
    ensures
        emission::blocks_ops(env, p, blocks, specialized, i) matches Ok(t) ==> {
            &&& grows(p, t)
            &&& is_small(t) && are_apart(env, blocks) && blocks_are_there(env, p, st) && region_is_there(env, p, st) && i < blocks.len() && is_open_for(env, p, blocks[i], i > 0 || specialized, st)
                && are_waiting(env, p, blocks, i + 1, st) ==> at_rest(env, t, st)
        },
    decreases blocks.len() - i,
{
    if i < blocks.len() {
        let switch = i > 0 || specialized;
        fills_block(env, p, blocks[i], switch, blocks, st);
        if let Ok(s1) = emission::block_ops(env, p, blocks[i], switch, blocks) {
            fills_blocks(env, s1, blocks, specialized, i + 1, st);
            if let Ok(t) = emission::blocks_ops(env, s1, blocks, specialized, i + 1) {
                if is_small(t) && are_apart(env, blocks) && blocks_are_there(env, p, st) && region_is_there(env, p, st) && is_open_for(env, p, blocks[i], switch, st) && are_waiting(
                    env,
                    p,
                    blocks,
                    i + 1,
                    st,
                ) {
                    if let Some(x) = env.region {
                        assert(x < p.ops.len());
                        assert(kind(s1, x, st) == kind(p, x, st));
                    }
                    assert forall|id: u32| #[trigger] env.blocks.dom().contains(id) implies kind(s1, env.blocks[id], st) == Kind::Block by {
                        assert(kind(p, env.blocks[id], st) == Kind::Block);
                        assert(env.blocks[id] < p.ops.len());
                    }
                    assert forall|j: int| i + 1 <= j < blocks.len() implies is_fresh(s1, env.blocks[(#[trigger] blocks[j]).id.0], st) by {
                        let x = env.blocks[blocks[j].id.0];
                        assert(env.blocks[blocks[i].id.0] != x);
                        assert(is_fresh(p, x, st));
                        assert(x < p.ops.len());
                        assert(kind(s1, x, st) == kind(p, x, st));
                        assert(is_touched(s1, x as int, st) == is_touched(p, x as int, st));
                        assert(is_filled(s1, x as int, st) == is_filled(p, x as int, st));
                    }
                    if i + 1 < blocks.len() {
                        assert(is_open_for(env, s1, blocks[i + 1], true, st));
                    }
                }
            }
        }
    }
}

/// Nothing has been asked for but blocks.
pub open spec fn has_blocks_alone(env: EnvView, p: PlanView, st: SettingView) -> bool {
    &&& is_quiet(env, p, st)
    &&& place(p, st) is None
    &&& desk(p.ops, st).plain
    &&& forall|x: usize| x < p.ops.len() ==> #[trigger] is_fresh(p, x, st)
}

proof fn begins_empty(env: EnvView, st: SettingView)
    ensures
        has_blocks_alone(env, emission::empty_plan(), st),
{
    desk_of_none(st);
    let p = emission::empty_plan();
    assert(desk(p.ops, st).vars.dom() =~= p.declared);
}

proof fn creates(env: EnvView, p: PlanView, st: SettingView)
    ensures
        has_blocks_alone(env, p, st) && p.ops.len() < usize::MAX ==> has_blocks_alone(env, clif::emit(p, OpView::CreateBlock), st),
{
    let op = OpView::CreateBlock;
    let t = clif::emit(p, op);
    if has_blocks_alone(env, p, st) && p.ops.len() < usize::MAX {
        let d = desk(p.ops, st);
        assert(replay::ready(d, op, st)) by {
            reveal(replay::ready);
        }
        ready_grows(p, op, st);
        desk_push(p.ops, op, st);
        let e = desk(t.ops, st);
        reveal(replay::advance);
        assert(e.kinds == d.kinds.push(Kind::Block));
        assert(e.filled == d.filled.push(false));
        assert(e.touched == d.touched.push(false));
        assert(e.vars == d.vars);
        assert forall|x: usize| x < t.ops.len() implies #[trigger] is_fresh(t, x, st) by {
            if x < p.ops.len() {
                assert(is_fresh(p, x, st));
            }
        }
        assert forall|q: int| 0 <= q < t.ops.len() && #[trigger] is_touched(t, q, st) implies is_filled(t, q, st) by {
            if q < p.ops.len() {
                assert(is_fresh(p, q as usize, st));
            }
        }
        assert(is_under_way(env, t, st));
    }
}

/// No two blocks have one number.
pub open spec fn have_own_ids(blocks: Seq<Block>) -> bool {
    forall|j: int, k: int| 0 <= j < k < blocks.len() ==> (#[trigger] blocks[j]).id != (#[trigger] blocks[k]).id
}

proof fn creates_all(env: EnvView, p: PlanView, map: Map<u32, usize>, blocks: Seq<Block>, i: int, st: SettingView)
    requires
        0 <= i <= blocks.len(),
        have_own_ids(blocks),
    ensures
        ({
            let (t, m) = emission::create_blocks(p, map, blocks, i);
            &&& t.ops.len() == p.ops.len() + blocks.len() - i
            &&& forall|j: int| i <= j < blocks.len() ==> m.dom().contains((#[trigger] blocks[j]).id.0)
            &&& is_small(t) ==> forall|j: int| i <= j < blocks.len() ==> m[(#[trigger] blocks[j]).id.0] == p.ops.len() + j - i
            &&& forall|id: u32| (forall|j: int| i <= j < blocks.len() ==> (#[trigger] blocks[j]).id.0 != id) ==> (#[trigger] m.dom().contains(id) == map.dom().contains(id)) && m[id] == map[id]
            &&& is_small(t) && has_blocks_alone(env, p, st) ==> has_blocks_alone(env, t, st)
        }),
    decreases blocks.len() - i,
{
    if i < blocks.len() {
        let (s1, b) = emission::req(p, OpView::CreateBlock);
        let map1 = map.insert(blocks[i].id.0, b);
        creates(env, p, st);
        creates_all(env, s1, map1, blocks, i + 1, st);
        let (t, m) = emission::create_blocks(s1, map1, blocks, i + 1);
        assert forall|j: int| i + 1 <= j < blocks.len() implies (#[trigger] blocks[j]).id.0 != blocks[i].id.0 by {
            assert(blocks[i].id != blocks[j].id);
        }
        assert(m.dom().contains(blocks[i].id.0) == map1.dom().contains(blocks[i].id.0));
        assert forall|id: u32| (forall|j: int| i <= j < blocks.len() ==> (#[trigger] blocks[j]).id.0 != id) implies (#[trigger] m.dom().contains(id) == map.dom().contains(id)) && m[id]
            == map[id] by {
            assert(blocks[i].id.0 != id);
            assert(m.dom().contains(id) == map1.dom().contains(id));
        }
    }
}

/// The parameters of the function are pointers, and as many as it needs.
pub open spec fn has_params(st: SettingView, n: nat) -> bool {
    &&& n <= st.params.len()
    &&& forall|i: int| 0 <= i < st.params.len() ==> #[trigger] st.params[i] == replay::ptr_ty(st)
}

proof fn takes_params(env: EnvView, p: PlanView, b: usize, st: SettingView)
    ensures
        grows(p, clif::emit(p, OpView::FunctionParams(b))),
        at_work(env, p, st) && p.ops.len() < usize::MAX && desk(p.ops, st).plain && kind(p, b, st) == Kind::Block ==> {
            let t = clif::emit(p, OpView::FunctionParams(b));
            &&& at_work(env, t, st)
            &&& place(t, st) == place(p, st)
            &&& entry(t, st) == Some(b)
            &&& forall|x: usize| x < p.ops.len() ==> #[trigger] kind(t, x, st) == kind(p, x, st)
            &&& forall|q: int| 0 <= q < p.ops.len() ==> #[trigger] is_touched(t, q, st) == is_touched(p, q, st)
            &&& forall|q: int| 0 <= q < p.ops.len() ==> #[trigger] is_filled(t, q, st) == is_filled(p, q, st)
        },
{
    let op = OpView::FunctionParams(b);
    let t = clif::emit(p, op);
    if at_work(env, p, st) && p.ops.len() < usize::MAX && desk(p.ops, st).plain && kind(p, b, st) == Kind::Block {
        let d = desk(p.ops, st);
        assert(replay::ready(d, op, st)) by {
            reveal(replay::ready);
        }
        ready_grows(p, op, st);
        desk_push(p.ops, op, st);
        let e = desk(t.ops, st);
        reveal(replay::advance);
        assert(e.kinds == d.kinds.push(Kind::Nothing));
        assert(e.filled == d.filled.push(false));
        assert(e.touched == d.touched.push(false));
        assert(e.vars == d.vars);
        assert forall|q: int| 0 <= q < t.ops.len() && #[trigger] is_touched(t, q, st) && place(t, st) != Some(q as usize) implies is_filled(t, q, st) by {
            if q < p.ops.len() {
                assert(is_touched(p, q, st));
            }
        }
        assert(is_under_way(env, t, st));
    }
}

proof fn takes_param(env: EnvView, p: PlanView, block: usize, index: usize, st: SettingView)
    ensures
        grows(p, emission::req(p, OpView::BlockParam { block, index }).0),
        at_work(env, p, st) && is_small(emission::req(p, OpView::BlockParam { block, index }).0) && entry(p, st) == Some(block) && has_params(st, (index + 1) as nat) ==> {
            let (t, x) = emission::req(p, OpView::BlockParam { block, index });
            leads(env, p, t, st) && place(t, st) == place(p, st) && gives_ptr(t, x, st)
        },
{
    plain_step(env, p, OpView::BlockParam { block, index }, st);
    reveal(replay::ready);
}

/// The parameters are held in the representations that they come in.
pub open spec fn params_fit(env: EnvView, params: Seq<(String, VarId)>, specs: Seq<Repr>) -> bool {
    forall|i: int| 0 <= i < params.len() ==> emission::repr_of(env, (#[trigger] params[i]).1) == (match emission::spec_at(specs, i) {
        Repr::Long => Repr::Long,
        Repr::Double => Repr::Double,
        _ => Repr::Boxed,
    })
}

proof fn binds_params(env: EnvView, p: PlanView, block: usize, params: Seq<(String, VarId)>, specs: Seq<Repr>, i: int, st: SettingView)
    requires
        0 <= i,
        has_params(st, params.len()),
        params_fit(env, params, specs),
        forall|k: int| 0 <= k < params.len() ==> #[trigger] emission::spec_at(specs, k) == Repr::Boxed,
    ensures
        grows(p, emission::bind_params(env, p, block, params, i)),
        at_work(env, p, st) && is_small(emission::bind_params(env, p, block, params, i)) && entry(p, st) == Some(block) && params.len() <= usize::MAX ==> {
            let t = emission::bind_params(env, p, block, params, i);
            leads(env, p, t, st) && place(t, st) == place(p, st)
        },
    decreases params.len() - i,
{
    leads_itself(env, p, st);
    if i < params.len() {
        let v = params[i].1;
        let s1 = emission::ensure_var(env, p, v);
        let (s2, x) = emission::req(s1, OpView::BlockParam { block, index: i as usize });
        let def = OpView::DefVar { var: v, value: x };
        let s3 = clif::emit(s2, def);
        let t = emission::bind_params(env, s3, block, params, i + 1);
        declares(env, p, v, st);
        takes_param(env, s1, block, i as usize, st);
        leads_on(env, p, s1, s2, st);
        plain_step(env, s2, def, st);
        leads_on(env, p, s2, s3, st);
        binds_params(env, s3, block, params, specs, i + 1, st);
        leads_on(env, p, s3, t, st);
        if at_work(env, p, st) && is_small(t) && entry(p, st) == Some(block) && params.len() <= usize::MAX {
            assert(emission::spec_at(specs, i) == Repr::Boxed);
            assert(has_params(st, (i + 1) as nat));
            assert(desk(s2.ops, st).vars.dom().contains(v.0)) by {
                assert(s2.declared.contains(v.0));
            }
            assert(gives(s2, x, var_ty(env, v, st), st));
            assert(replay::ready(desk(s2.ops, st), def, st)) by {
                reveal(replay::ready);
            }
        }
    }
}

/// The guard of one parameter, up to the block behind it.
proof fn guards(env: EnvView, p: PlanView, raw: usize, deopt: usize, tag_value: i64, st: SettingView)
    ensures
        ({
            let (s2, tag) = emission::call_rt(p, RtFn::ValueTag, seq![raw]);
            let (s3, ok) = emission::req(s2, OpView::IntTestImm { cond: clif::IntCond::Equal, a: tag, imm: tag_value });
            let (s4, cont) = emission::req(s3, OpView::CreateBlock);
            let s5 = clif::emit(s4, OpView::Brif { cond: ok, then_block: cont, then_args: Seq::empty(), else_block: deopt, else_args: Seq::empty() });
            let s6 = clif::emit(s5, OpView::SwitchTo(cont));
            &&& grows(p, s6)
            &&& at_work(env, p, st) && is_small(s6) && kind(p, raw, st) is Value && kind(p, deopt, st) == Kind::Block ==> leads(env, p, s6, st)
        }),
{
    let (s2, tag) = emission::call_rt(p, RtFn::ValueTag, seq![raw]);
    let test = OpView::IntTestImm { cond: clif::IntCond::Equal, a: tag, imm: tag_value };
    let (s3, ok) = emission::req(s2, test);
    let (s4, cont) = emission::req(s3, OpView::CreateBlock);
    let brif = OpView::Brif { cond: ok, then_block: cont, then_args: Seq::empty(), else_block: deopt, else_args: Seq::empty() };
    let s6 = clif::emit(clif::emit(s4, brif), OpView::SwitchTo(cont));
    calls_rt(env, p, RtFn::ValueTag, seq![raw], st);
    plain_step(env, s2, test, st);
    plain_step(env, s3, OpView::CreateBlock, st);
    hops(env, s4, brif, cont, st);
    if at_work(env, p, st) && is_small(s6) && kind(p, raw, st) is Value && kind(p, deopt, st) == Kind::Block {
        assert(replay::ready(desk(s2.ops, st), test, st)) by {
            reveal(replay::ready);
        }
        leads_on(env, p, s2, s3, st);
        assert(replay::ready(desk(s3.ops, st), OpView::CreateBlock, st)) by {
            reveal(replay::ready);
        }
        leads_on(env, p, s3, s4, st);
        assert(kind(s4, ok, st) is Value);
        assert(deopt < p.ops.len());
        assert(kind(s4, deopt, st) == kind(p, deopt, st));
        assert(is_fresh(s4, cont, st));
        branches(env, s4, ok, cont, Seq::empty(), deopt, Seq::empty(), st);
        leads_over(env, p, s4, s6, st);
    }
}

proof fn guards_params(env: EnvView, p: PlanView, prologue: usize, deopt: usize, params: Seq<(String, VarId)>, specs: Seq<Repr>, i: int, st: SettingView)
    requires
        0 <= i,
        has_params(st, params.len()),
        params_fit(env, params, specs),
    ensures
        grows(p, emission::guard_params(env, p, prologue, deopt, params, specs, i)),
        at_work(env, p, st) && is_small(emission::guard_params(env, p, prologue, deopt, params, specs, i)) && entry(p, st) == Some(prologue) && kind(p, deopt, st) == Kind::Block
            && params.len() <= usize::MAX ==> leads(env, p, emission::guard_params(env, p, prologue, deopt, params, specs, i), st),
    decreases params.len() - i,
{
    leads_itself(env, p, st);
    if i < params.len() {
        let v = params[i].1;
        let r = emission::spec_at(specs, i);
        let t = emission::guard_params(env, p, prologue, deopt, params, specs, i);
        let (s1, raw) = emission::req(p, OpView::BlockParam { block: prologue, index: i as usize });
        takes_param(env, p, prologue, i as usize, st);
        if r == Repr::Long || r == Repr::Double {
            let (s2, tag) = emission::call_rt(s1, RtFn::ValueTag, seq![raw]);
            let (s3, ok) = emission::req(s2, OpView::IntTestImm { cond: clif::IntCond::Equal, a: tag, imm: emission::guard_tag(r) });
            let (s4, cont) = emission::req(s3, OpView::CreateBlock);
            let s5 = clif::emit(s4, OpView::Brif { cond: ok, then_block: cont, then_args: Seq::empty(), else_block: deopt, else_args: Seq::empty() });
            let s6 = clif::emit(s5, OpView::SwitchTo(cont));
            let f = if r == Repr::Long { RtFn::UnboxLong } else { RtFn::UnboxDouble };
            let (s7, x) = emission::call_rt(s6, f, seq![raw]);
            let s8 = emission::define(env, s7, v, x);
            guards(env, s1, raw, deopt, emission::guard_tag(r), st);
            leads_on(env, p, s1, s6, st);
            calls_rt(env, s6, f, seq![raw], st);
            leads_on(env, p, s6, s7, st);
            defines(env, s7, v, x, st);
            leads_on(env, p, s7, s8, st);
            guards_params(env, s8, prologue, deopt, params, specs, i + 1, st);
            leads_on(env, p, s8, t, st);
            if at_work(env, p, st) && is_small(t) && entry(p, st) == Some(prologue) && kind(p, deopt, st) == Kind::Block && params.len() <= usize::MAX {
                assert(has_params(st, (i + 1) as nat));
                assert(deopt < p.ops.len());
                assert(kind(s1, deopt, st) == Kind::Block);
                assert(kind(s6, raw, st) == kind(s1, raw, st));
                assert(kind(s8, deopt, st) == kind(p, deopt, st));
            }
        } else {
            let s2 = emission::define(env, s1, v, raw);
            defines(env, s1, v, raw, st);
            leads_on(env, p, s1, s2, st);
            guards_params(env, s2, prologue, deopt, params, specs, i + 1, st);
            leads_on(env, p, s2, t, st);
            if at_work(env, p, st) && is_small(t) && entry(p, st) == Some(prologue) && kind(p, deopt, st) == Kind::Block && params.len() <= usize::MAX {
                assert(has_params(st, (i + 1) as nat));
                assert(deopt < p.ops.len());
                assert(kind(s2, deopt, st) == kind(p, deopt, st));
            }
        }
    }
}

proof fn takes_region(env: EnvView, p: PlanView, func: IrFunction, block: usize, st: SettingView)
    requires
        has_params(st, func.spec_abi_param_count()),
    ensures
        grows(p, emission::region_param(p, func, block).0),
        at_work(env, p, st) && is_small(emission::region_param(p, func, block).0) && entry(p, st) == Some(block) ==> {
            let (t, region) = emission::region_param(p, func, block);
            &&& leads(env, p, t, st)
            &&& place(t, st) == place(p, st)
            &&& region matches Some(x) ==> gives_ptr(t, x, st)
        },
{
    leads_itself(env, p, st);
    takes_param(env, p, block, func.params@.len() as usize, st);
}

/// The way into a function has been made: its blocks can be filled one after the other.
pub open spec fn is_entered(env: EnvView, p: PlanView, blocks: Seq<Block>, specialized: bool, region: Option<usize>, st: SettingView) -> bool {
    &&& blocks_are_there(env, p, st)
    &&& is_open_for(env, p, blocks[0], specialized, st)
    &&& are_waiting(env, p, blocks, 1, st)
    &&& region matches Some(x) ==> gives_ptr(p, x, st)
}

/// What a function is asked to be: its blocks have numbers of their own, its first one has no phis,
/// and the parts of its instructions are no more than a stack slot has cells.
pub open spec fn is_regular(func: IrFunction) -> bool {
    &&& have_own_ids(func.blocks@)
    &&& func.blocks@[0].phis@.len() == 0
    &&& forall|j: int, i: int| 0 <= j < func.blocks@.len() && 0 <= i < func.blocks@[j].insts@.len() ==> is_modest(#[trigger] func.blocks@[j].insts@[i])
}

proof fn enters_plainly(env: EnvView, p: PlanView, func: IrFunction, specs: Seq<Repr>, prologue: usize, st: SettingView)
    requires
        func.blocks@.len() > 0,
        func.blocks@[0].phis@.len() == 0,
        !emission::is_specialized(func, specs),
        params_fit(env, func.params@, specs),
        has_params(st, func.spec_abi_param_count()),
    ensures
        grows(p, emission::entry_ops(env, p, func, specs, prologue).0),
        is_small(emission::entry_ops(env, p, func, specs, prologue).0) && are_apart(env, func.blocks@) && has_blocks_alone(env, p, st) && blocks_are_there(env, p, st) && are_waiting(env, p, func.blocks@, 0, st) ==> is_entered(
            env,
            emission::entry_ops(env, p, func, specs, prologue).0,
            func.blocks@,
            false,
            emission::entry_ops(env, p, func, specs, prologue).1,
            st,
        ),
{
    let blocks = func.blocks@;
    let b = env.blocks[blocks[0].id.0];
    let s0 = clif::emit(p, OpView::SwitchTo(b));
    let s1 = clif::emit(s0, OpView::FunctionParams(b));
    let s2 = emission::bind_params(env, s1, b, func.params@, 0);
    let (s3, region) = emission::region_param(s2, func, b);
    let t = emission::call_rt_void(s3, RtFn::Safepoint, Seq::empty());
    assert(func.params@.len() == func.params.len());
    enters_block(env, p, b, st);
    takes_params(env, s0, b, st);
    assert forall|k: int| 0 <= k < func.params@.len() implies #[trigger] emission::spec_at(specs, k) == Repr::Boxed by {}
    binds_params(env, s1, b, func.params@, specs, 0, st);
    takes_region(env, s2, func, b, st);
    leads_on(env, s1, s2, s3, st);
    calls_rt_void(env, s3, RtFn::Safepoint, Seq::empty(), st);
    leads_on(env, s1, s3, t, st);
    if is_small(t) && are_apart(env, blocks) && has_blocks_alone(env, p, st) && blocks_are_there(env, p, st) && are_waiting(env, p, blocks, 0, st) {
        assert(is_fresh(p, b, st));
        assert(kind(s0, b, st) == kind(p, b, st));
        assert(at_work(env, s1, st));
        assert(leads(env, s1, t, st));
        assert forall|id: u32| #[trigger] env.blocks.dom().contains(id) implies kind(t, env.blocks[id], st) == Kind::Block by {
            let x = env.blocks[id];
            assert(kind(p, x, st) == Kind::Block);
            assert(x < p.ops.len());
            assert(kind(s0, x, st) == kind(p, x, st));
            assert(kind(s1, x, st) == kind(s0, x, st));
        }
        assert forall|j: int| 1 <= j < blocks.len() implies is_fresh(t, env.blocks[(#[trigger] blocks[j]).id.0], st) by {
            let x = env.blocks[blocks[j].id.0];
            assert(env.blocks[blocks[0].id.0] != x);
            assert(is_fresh(p, x, st));
            assert(x < p.ops.len());
            assert(kind(s0, x, st) == kind(p, x, st) && is_touched(s0, x as int, st) == is_touched(p, x as int, st) && is_filled(s0, x as int, st) == is_filled(p, x as int, st));
            assert(kind(s1, x, st) == kind(s0, x, st) && is_touched(s1, x as int, st) == is_touched(s0, x as int, st) && is_filled(s1, x as int, st) == is_filled(s0, x as int, st));
            stays_fresh(env, s1, t, x, st);
        }
        if let Some(x) = region {
            assert(kind(t, x, st) == kind(s3, x, st));
        }
    }
}

/// The block stands for none of the function's.
pub open spec fn is_aside(env: EnvView, blocks: Seq<Block>, block: usize) -> bool {
    forall|j: int| 0 <= j < blocks.len() ==> env.blocks[(#[trigger] blocks[j]).id.0] != block
}

#[verifier::rlimit(50)]
proof fn enters_guarded(env: EnvView, p: PlanView, func: IrFunction, specs: Seq<Repr>, prologue: usize, st: SettingView)
    requires
        func.blocks@.len() > 0,
        emission::is_specialized(func, specs),
        params_fit(env, func.params@, specs),
        has_params(st, func.spec_abi_param_count()),
    ensures
        grows(p, emission::entry_ops(env, p, func, specs, prologue).0),
        is_small(emission::entry_ops(env, p, func, specs, prologue).0) && has_blocks_alone(env, p, st) && blocks_are_there(env, p, st) && are_waiting(env, p, func.blocks@, 0, st)
            && prologue < p.ops.len() && is_aside(env, func.blocks@, prologue) ==> is_entered(
            env,
            emission::entry_ops(env, p, func, specs, prologue).0,
            func.blocks@,
            true,
            emission::entry_ops(env, p, func, specs, prologue).1,
            st,
        ),
{
    let blocks = func.blocks@;
    let b = env.blocks[blocks[0].id.0];
    let s0 = clif::emit(p, OpView::SwitchTo(prologue));
    let s1 = clif::emit(s0, OpView::FunctionParams(prologue));
    let (s2, deopt) = emission::req(s1, OpView::CreateBlock);
    let s3 = emission::guard_params(env, s2, prologue, deopt, func.params@, specs, 0);
    let (s4, region) = emission::region_param(s3, func, prologue);
    let s5 = emission::call_rt_void(s4, RtFn::Safepoint, Seq::empty());
    let jump = OpView::Jump { block: b, args: Seq::empty() };
    let s7 = clif::emit(clif::emit(s5, jump), OpView::SwitchTo(deopt));
    let (s8, sentinel) = emission::call_rt(s7, RtFn::Deopt, Seq::empty());
    let t = clif::emit(s8, OpView::Return(sentinel));
    assert(func.params@.len() == func.params.len());
    enters_block(env, p, prologue, st);
    takes_params(env, s0, prologue, st);
    plain_step(env, s1, OpView::CreateBlock, st);
    guards_params(env, s2, prologue, deopt, func.params@, specs, 0, st);
    takes_region(env, s3, func, prologue, st);
    calls_rt_void(env, s4, RtFn::Safepoint, Seq::empty(), st);
    hops(env, s5, jump, deopt, st);
    calls_rt(env, s7, RtFn::Deopt, Seq::empty(), st);
    hands_back(env, s8, sentinel, st);
    comes_to_end(env, s7, s8, OpView::Return(sentinel), st);
    if is_small(t) && has_blocks_alone(env, p, st) && blocks_are_there(env, p, st) && are_waiting(env, p, blocks, 0, st) && prologue < p.ops.len() && is_aside(
        env,
        blocks,
        prologue,
    ) {
        assert(is_fresh(p, prologue, st));
        assert(kind(s0, prologue, st) == kind(p, prologue, st));
        assert(at_work(env, s1, st) && place(s1, st) == Some(prologue));
        assert(replay::ready(desk(s1.ops, st), OpView::CreateBlock, st)) by {
            reveal(replay::ready);
        }
        assert(is_fresh(s2, deopt, st));
        assert(entry(s2, st) == Some(prologue));
        assert(leads(env, s2, s3, st));
        leads_on(env, s2, s3, s4, st);
        leads_on(env, s2, s4, s5, st);
        assert(leads(env, s2, s5, st));
        assert(place(s2, st) == Some(prologue));
        assert(deopt == s1.ops.len());
        stays_fresh(env, s2, s5, deopt, st);
        assert(place(s5, st) != Some(deopt));
        assert forall|x: usize| x < p.ops.len() && x != prologue implies #[trigger] is_fresh(s5, x, st) by {
            assert(is_fresh(p, x, st));
            assert(kind(s0, x, st) == kind(p, x, st) && is_touched(s0, x as int, st) == is_touched(p, x as int, st) && is_filled(s0, x as int, st) == is_filled(p, x as int, st));
            assert(kind(s1, x, st) == kind(s0, x, st) && is_touched(s1, x as int, st) == is_touched(s0, x as int, st) && is_filled(s1, x as int, st) == is_filled(s0, x as int, st));
            stays_fresh(env, s1, s2, x, st);
            stays_fresh(env, s2, s5, x, st);
        }
        assert(is_fresh(p, b, st));
        assert(is_fresh(s5, b, st));
        jumps(env, s5, b, Seq::empty(), st);
        assert(at_work(env, s7, st) && keeps(s5, s7, st) && place(s7, st) == Some(deopt));
        assert(at_rest(env, t, st) && keeps(s7, t, st));
        assert forall|j: int| 0 <= j < blocks.len() implies is_fresh(t, env.blocks[(#[trigger] blocks[j]).id.0], st) by {
            let x = env.blocks[blocks[j].id.0];
            assert(x != prologue);
            assert(is_fresh(p, x, st));
            assert(x < p.ops.len());
            assert(is_fresh(s5, x, st));
            assert(place(s5, st) != Some(x));
            stays_fresh(env, s5, s7, x, st);
            stays_fresh(env, s7, t, x, st);
        }
        assert forall|id: u32| #[trigger] env.blocks.dom().contains(id) implies kind(t, env.blocks[id], st) == Kind::Block by {
            let x = env.blocks[id];
            assert(kind(p, x, st) == Kind::Block);
            assert(x < p.ops.len());
            assert(kind(s0, x, st) == kind(p, x, st));
            assert(kind(s1, x, st) == kind(s0, x, st));
            assert(kind(s2, x, st) == kind(s1, x, st));
            assert(kind(s5, x, st) == kind(s2, x, st));
            assert(kind(s7, x, st) == kind(s5, x, st));
        }
        if let Some(x) = region {
            assert(x < s4.ops.len());
            assert(kind(s5, x, st) == kind(s4, x, st));
            assert(kind(s7, x, st) == kind(s5, x, st));
            assert(kind(t, x, st) == kind(s7, x, st));
        }
    }
}

proof fn seals(env: EnvView, p: PlanView, st: SettingView)
    requires
        at_rest(env, p, st),
        replay::is_bounded(p.ops.push(OpView::SealAll), st),
    ensures
        replay::is_sound(p.ops.push(OpView::SealAll), st),
{
    let ops = p.ops.push(OpView::SealAll);
    let op = OpView::SealAll;
    let d = desk(p.ops, st);
    assert(replay::ready(d, op, st)) by {
        reveal(replay::ready);
    }
    ready_grows(p, op, st);
    desk_push(p.ops, op, st);
    let e = desk(ops, st);
    assert(e.sealed && replay::is_closed(e) && replay::is_over(e)) by {
        reveal(replay::advance);
        assert(e.filled == d.filled.push(false));
        assert(e.touched == d.touched.push(false));
        assert forall|q: int| 0 <= q < e.touched.len() && #[trigger] e.touched[q] implies e.filled[q] by {
            assert(q < p.ops.len());
            assert(is_touched(p, q, st));
            assert(is_filled(p, q, st));
        }
    }
    reveal(desk);
    let n = ops.len();
    assert forall|i: int| 0 <= i < ops.len() implies replay::ready(replay::run(ops, replay::blank(n), i, st), #[trigger] ops[i], st) by {
        run_agrees(ops.take(i), ops, replay::blank(i as nat), replay::blank(n), i, st);
        assert(replay::ready(desk(ops.take(i), st), ops[i], st));
    }
}

/// What the representations of a function's values are asked to be: every instruction defines its
/// value in the representation that it computes it in, and the parameters are held as they come.
pub open spec fn reprs_fit(func: IrFunction, reprs: Map<u32, Repr>, specs: Seq<Repr>) -> bool {
    let env = EnvView { reprs, funcs: Seq::empty(), blocks: Map::empty(), region: None, pins: Seq::empty() };
    &&& params_fit(env, func.params@, specs)
    &&& forall|j: int, i: int| 0 <= j < func.blocks@.len() && 0 <= i < func.blocks@[j].insts@.len() ==> inst_fits(env, #[trigger] func.blocks@[j].insts@[i])
}

/// The plan of a function can be carried out wherever the functions that it calls are declared and
/// it gets as many parameters as it takes.  Nothing is said of a plan with more requests than a
/// machine can number, or with stack slots that no frame can hold.
#[verifier::rlimit(50)]
pub proof fn plans_can_be_carried_out(func: IrFunction, reprs: Map<u32, Repr>, funcs: Seq<Seq<char>>, specs: Seq<Repr>, st: SettingView)
    requires
        emission::function_ok(func),
        is_regular(func),
        reprs_fit(func, reprs, specs),
        funcs == st.users.map_values(|u: (Seq<char>, u32)| u.0),
        has_params(st, func.spec_abi_param_count()),
    ensures
        emission::function_plan(func, reprs, funcs, specs) matches Ok(plan) ==> plan.ops.len() <= usize::MAX && replay::is_bounded(plan.ops, st) ==> replay::is_sound(plan.ops, st),
{
    let specialized = emission::is_specialized(func, specs);
    let blocks = func.blocks@;
    let (s1, prologue) = if specialized {
        emission::req(emission::empty_plan(), OpView::CreateBlock)
    } else {
        (emission::empty_plan(), 0usize)
    };
    let (s2, map) = emission::create_blocks(s1, Map::empty(), blocks, 0);
    let pins = ir::texts_view(func.pins@);
    let env0 = EnvView { reprs, funcs, blocks: map, region: None, pins };
    let (s3, region) = emission::entry_ops(env0, s2, func, specs, prologue);
    let env = EnvView { reprs, funcs, blocks: map, region, pins };
    let bare = EnvView { reprs, funcs: Seq::empty(), blocks: Map::empty(), region: None, pins: Seq::empty() };
    begins_empty(env0, st);
    creates(env0, emission::empty_plan(), st);
    creates_all(env0, s1, Map::empty(), blocks, 0, st);
    assert(params_fit(env0, func.params@, specs)) by {
        assert forall|i: int| 0 <= i < func.params@.len() implies emission::repr_of(env0, (#[trigger] func.params@[i]).1) == emission::repr_of(bare, func.params@[i].1) by {}
    }
    if specialized {
        enters_guarded(env0, s2, func, specs, prologue, st);
    } else {
        enters_plainly(env0, s2, func, specs, prologue, st);
    }
    assert forall|j: int| 0 <= j < blocks.len() implies block_fits(env, #[trigger] blocks[j]) by {
        block_is_fit(func, env, bare, j);
    }
    fills_blocks(env, s3, blocks, specialized, 0, st);
    if let Ok(s4) = emission::blocks_ops(env, s3, blocks, specialized, 0) {
        if s4.ops.len() < usize::MAX && replay::is_bounded(s4.ops.push(OpView::SealAll), st) {
            assert(is_small(s2) && is_small(s3));
            assert forall|j: int| 0 <= j < blocks.len() implies map[(#[trigger] blocks[j]).id.0] == s1.ops.len() + j by {}
            assert(are_apart(env0, blocks));
            assert(are_apart(env, blocks));
            assert(has_blocks_alone(env0, s2, st));
            assert forall|id: u32| #[trigger] env0.blocks.dom().contains(id) implies kind(s2, env0.blocks[id], st) == Kind::Block by {
                if forall|j: int| 0 <= j < blocks.len() ==> (#[trigger] blocks[j]).id.0 != id {
                    assert(map.dom().contains(id) == Map::<u32, usize>::empty().dom().contains(id));
                } else {
                    let j = choose|j: int| 0 <= j < blocks.len() && (#[trigger] blocks[j]).id.0 == id;
                    assert(map[blocks[j].id.0] < s2.ops.len());
                    assert(is_fresh(s2, map[id], st));
                }
            }
            assert forall|j: int| 0 <= j < blocks.len() implies is_fresh(s2, env0.blocks[(#[trigger] blocks[j]).id.0], st) by {
                assert(map[blocks[j].id.0] < s2.ops.len());
            }
            assert(is_entered(env0, s3, blocks, specialized, region, st));
            same_reprs(env0, env, s3, st);
            assert(is_open_for(env, s3, blocks[0], specialized, st));
            assert(blocks_are_there(env, s3, st)) by {
                assert forall|id: u32| #[trigger] env.blocks.dom().contains(id) implies kind(s3, env.blocks[id], st) == Kind::Block by {
                    assert(env0.blocks.dom().contains(id));
                }
            }
            assert(are_waiting(env, s3, blocks, 1, st)) by {
                assert forall|j: int| 1 <= j < blocks.len() implies is_fresh(s3, env.blocks[(#[trigger] blocks[j]).id.0], st) by {
                    assert(is_fresh(s3, env0.blocks[blocks[j].id.0], st));
                }
            }
            seals(env, s4, st);
        }
    }
}

proof fn block_is_fit(func: IrFunction, env: EnvView, bare: EnvView, j: int)
    requires
        emission::function_ok(func),
        is_regular(func),
        0 <= j < func.blocks@.len(),
        env.reprs == bare.reprs,
        forall|k: int| 0 <= k < func.blocks@.len() ==> env.blocks.dom().contains((#[trigger] func.blocks@[k]).id.0),
        forall|k: int, i: int| 0 <= k < func.blocks@.len() && 0 <= i < func.blocks@[k].insts@.len() ==> inst_fits(bare, #[trigger] func.blocks@[k].insts@[i]),
    ensures
        block_fits(env, func.blocks@[j]),
{
    let b = func.blocks@[j];
    assert(emission::names_blocks(func.blocks@, b.terminator));
    assert forall|id: BlockId| emission::has_block(func.blocks@, id) implies #[trigger] env.blocks.dom().contains(id.0) by {
        let k = choose|k: int| 0 <= k < func.blocks@.len() && (#[trigger] func.blocks@[k]).id == id;
        assert(env.blocks.dom().contains(func.blocks@[k].id.0));
    }
    assert(emission::term_ok(env.blocks, b.terminator)) by {
        match b.terminator {
            Terminator::Jump(t) => assert(env.blocks.dom().contains(t.0)),
            Terminator::Branch { cond, then_block, else_block } => {
                assert(env.blocks.dom().contains(then_block.0));
                assert(env.blocks.dom().contains(else_block.0));
            },
            Terminator::RecurJump { target, args } => assert(env.blocks.dom().contains(target.0)),
            _ => {},
        }
    }
    assert forall|i: int| 0 <= i < b.insts@.len() implies emission::inst_ok(#[trigger] b.insts@[i]) && is_modest(b.insts@[i]) && inst_fits(env, b.insts@[i]) by {
        let inst = func.blocks@[j].insts@[i];
        assert(inst_fits(bare, inst));
        assert(forall|v: VarId| emission::repr_of(env, v) == #[trigger] emission::repr_of(bare, v));
        match inst {
            Inst::Const(dst, c) => {
                assert(emission::repr_of(env, dst) == emission::repr_of(bare, dst));
            },
            Inst::CallKnown(dst, kf, args) => {
                assert(emission::repr_of(env, dst) == emission::repr_of(bare, dst));
                if args@.len() == 2 {
                    assert(emission::repr_of(env, args@[0]) == emission::repr_of(bare, args@[0]));
                    assert(emission::repr_of(env, args@[1]) == emission::repr_of(bare, args@[1]));
                }
            },
            _ => {
                if let Some(dst) = inst.spec_dst() {
                    assert(emission::repr_of(env, dst) == emission::repr_of(bare, dst));
                }
            },
        }
    }
}

proof fn same_reprs(a: EnvView, b: EnvView, p: PlanView, st: SettingView)
    requires
        a.reprs == b.reprs,
    ensures
        at_work(a, p, st) ==> at_work(b, p, st),
        at_rest(a, p, st) ==> at_rest(b, p, st),
{
    assert forall|v: VarId| var_ty(a, v, st) == #[trigger] var_ty(b, v, st) by {}
    if is_under_way(a, p, st) {
        assert forall|v: VarId| #[trigger] p.declared.contains(v.0) implies desk(p.ops, st).vars[v.0].1 == var_ty(b, v, st) by {
            assert(var_ty(a, v, st) == var_ty(b, v, st));
        }
        assert(is_under_way(b, p, st));
    }
}

proof fn seeds_are_boxed(params: Seq<(String, VarId)>, specs: Seq<Repr>, n: int, i: int)
    requires
        0 <= i < n <= params.len(),
        forall|k: int| 0 <= k < params.len() ==> #[trigger] emission::spec_at(specs, k) == Repr::Boxed,
    ensures
        typeinfer::at(typeinfer::param_seeds(params, specs, n), params[i].1) == Some(Repr::Boxed),
    decreases n,
{
    assert(emission::spec_at(specs, n - 1) == Repr::Boxed);
    if i < n - 1 {
        seeds_are_boxed(params, specs, n - 1, i);
    }
}

proof fn hints_keep_boxed(base: Map<u32, Repr>, hints: Seq<(VarId, Repr)>, n: int, v: VarId)
    requires
        0 <= n <= hints.len(),
        typeinfer::at(base, v) == Some(Repr::Boxed),
    ensures
        typeinfer::at(typeinfer::with_hints(base, hints, n), v) == Some(Repr::Boxed),
    decreases n,
{
    if n > 0 {
        hints_keep_boxed(base, hints, n - 1, v);
    }
}

/// The environment of a translation, as far as representations go.
pub open spec fn reprs_of(m: Map<u32, Repr>) -> EnvView {
    EnvView { reprs: typeinfer::unboxed(m), funcs: Seq::empty(), blocks: Map::empty(), region: None, pins: Seq::empty() }
}

/// Where no parameter is specialized, all are held boxed, as they come.
pub proof fn boxed_parameters_fit(func: IrFunction, specs: Seq<Repr>, m: Map<u32, Repr>)
    requires
        typeinfer::is_solution(func, specs, m),
        !emission::is_specialized(func, specs),
    ensures
        params_fit(reprs_of(m), func.params@, specs),
{
    let params = func.params@;
    assert forall|k: int| 0 <= k < params.len() implies #[trigger] emission::spec_at(specs, k) == Repr::Boxed by {}
    assert forall|i: int| 0 <= i < params.len() implies emission::repr_of(reprs_of(m), (#[trigger] params[i]).1) == Repr::Boxed by {
        let v = params[i].1;
        seeds_are_boxed(params, specs, params.len() as int, i);
        hints_keep_boxed(typeinfer::param_seeds(params, specs, params.len() as int), func.local_seed_reprs@, func.local_seed_reprs@.len() as int, v);
        assert(typeinfer::below(typeinfer::at(typeinfer::seeds(func, specs), v), typeinfer::at(m, v)));
    }
}

proof fn inferred_inst_fits(inst: Inst, m: Map<u32, Repr>)
    requires
        typeinfer::respects_inst(inst, m),
        soundness::operands_known(inst, m),
    ensures
        inst_fits(reprs_of(m), inst),
{
    match inst {
        Inst::Const(dst, c) => {
            assert(inst.spec_dst() == Some(dst));
        },
        Inst::CallKnown(dst, kf, args) => {
            assert(inst.spec_dst() == Some(dst));
            if emission::repr_of(reprs_of(m), dst) != Repr::Boxed && args@.len() == 2 {
                assert(typeinfer::at(m, args@[0]) is Some);
                assert(typeinfer::at(m, args@[1]) is Some);
            }
        },
        _ => {},
    }
}

/// With the representations that inference finds, a function whose instructions are supported has a
/// plan, and the plan can be carried out.
///
/// Nothing is said of a parameter that is specialized to one representation and held in another, as
/// one that a hint gives a third.
pub proof fn inferred_plans_can_be_carried_out(func: IrFunction, specs: Seq<Repr>, m: Map<u32, Repr>, funcs: Seq<Seq<char>>, st: SettingView)
    requires
        emission::function_ok(func),
        is_regular(func),
        typeinfer::is_solution(func, specs, m),
        forall|b: int| 0 <= b < func.blocks@.len() ==> soundness::block_known(#[trigger] func.blocks@[b], m),
        forall|b: int| 0 <= b < func.blocks@.len() ==> soundness::block_supported(#[trigger] func.blocks@[b], funcs, func.spec_takes_region_param()),
        emission::is_specialized(func, specs) ==> params_fit(reprs_of(m), func.params@, specs),
        funcs == st.users.map_values(|u: (Seq<char>, u32)| u.0),
        has_params(st, func.spec_abi_param_count()),
    ensures
        emission::function_plan(func, typeinfer::unboxed(m), funcs, specs) matches Ok(plan) && (plan.ops.len() <= usize::MAX && replay::is_bounded(plan.ops, st) ==> replay::is_sound(plan.ops, st)),
{
    soundness::inferred_representations_fit(func, specs, m, funcs);
    if !emission::is_specialized(func, specs) {
        boxed_parameters_fit(func, specs, m);
    }
    assert forall|j: int, i: int| 0 <= j < func.blocks@.len() && 0 <= i < func.blocks@[j].insts@.len() implies inst_fits(reprs_of(m), #[trigger] func.blocks@[j].insts@[i]) by {
        assert(soundness::block_known(func.blocks@[j], m));
        assert(typeinfer::respects_block(func.blocks@, func.blocks@[j], m));
        inferred_inst_fits(func.blocks@[j].insts@[i], m);
    }
    assert(reprs_fit(func, typeinfer::unboxed(m), specs));
    plans_can_be_carried_out(func, typeinfer::unboxed(m), funcs, specs, st);
}

} // verus!
