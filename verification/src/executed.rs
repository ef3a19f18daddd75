//! Plans do what their functions do: carrying out the plan of a function gives what running the
//! function gives.
use crate::bridge::{ClifTy, RtFn};
use crate::clif;
use crate::clif::{Arith, Cell, FloatCond, IntCond, OpView, PlanView};
use crate::emission;
use crate::emission::{EnvView, ErrorView};
use crate::execution;
use crate::execution::{Effect, Host, Mach, Reading, Spot, Step, Vars};
use crate::ir;
use crate::ir::{Block, BlockId, ClosureTemplate, Const, Inst, IrFunction, KnownFn, Repr, Terminator, VarId};
use vstd::prelude::*;

verus! {

/// The requests begin with those of the plan, and can be counted.
pub open spec fn is_part(f: Seq<OpView>, s: PlanView) -> bool {
    &&& f.len() <= usize::MAX
    &&& f.len() <= i64::MAX
    &&& s.ops.len() <= f.len()
    &&& forall|p: int| 0 <= p < s.ops.len() ==> #[trigger] f[p] == s.ops[p]
}

/// The request at `p` opens no block that was there before request `n`, and gives none a parameter;
/// a block has one at most, at once.
pub open spec fn is_inward(op: OpView, n: int, p: int) -> bool {
    match op {
        OpView::SwitchTo(b) => n <= b < p,
        OpView::AppendParam { block, ty } => n <= block && p == block + 1,
        _ => true,
    }
}

/// The plan goes on as the other, with blocks of its own alone.
pub open spec fn grows(s: PlanView, t: PlanView) -> bool {
    &&& s.ops.len() <= t.ops.len()
    &&& forall|p: int| 0 <= p < s.ops.len() ==> #[trigger] t.ops[p] == s.ops[p]
    &&& t.ops.len() <= usize::MAX ==> forall|p: int| s.ops.len() <= p < t.ops.len() ==> is_inward(#[trigger] t.ops[p], s.ops.len() as int, p)
}

/// The machine gets from the end of one plan to the end of the other.
spec fn flows(h: Host, f: Seq<OpView>, s: PlanView, m: Mach, t: PlanView, n: Mach) -> bool {
    &&& grows(s, t)
    &&& is_part(f, t) ==> execution::reaches(h, f, Spot::At(s.ops.len() as int, m), Spot::At(t.ops.len() as int, n))
}

/// Nothing but what new requests yield, cells and the world is different.
spec fn still(m: Mach, n: Mach, at: int) -> bool {
    &&& n.vars == m.vars
    &&& n.params == m.params
    &&& forall|p: usize| p < at ==> #[trigger] n.vals[p] == m.vals[p]
}

spec fn are_below(xs: Seq<usize>, n: int) -> bool {
    forall|k: int| 0 <= k < xs.len() ==> #[trigger] xs[k] < n
}

spec fn reading(env: EnvView) -> Reading {
    Reading { reprs: env.reprs, pins: env.pins }
}

proof fn walk_adds(h: Host, f: Seq<OpView>, s: Spot, n: nat, m: nat)
    ensures
        execution::walked(h, f, s, n + m) == execution::walked(h, f, execution::walked(h, f, s, n), m),
    decreases n,
{
    if n > 0 {
        walk_adds(h, f, execution::moved(h, f, s), (n - 1) as nat, m);
    }
}

proof fn reach_self(h: Host, f: Seq<OpView>, s: Spot)
    ensures
        execution::reaches(h, f, s, s),
{
    assert(execution::walked(h, f, s, 0) == s);
}

proof fn reach_one(h: Host, f: Seq<OpView>, s: Spot)
    ensures
        execution::reaches(h, f, s, execution::moved(h, f, s)),
{
    let t = execution::moved(h, f, s);
    assert(execution::walked(h, f, t, 0) == t);
    assert(execution::walked(h, f, s, 1) == t);
}

proof fn reach_on(h: Host, f: Seq<OpView>, s: Spot, t: Spot, u: Spot)
    requires
        execution::reaches(h, f, s, t),
        execution::reaches(h, f, t, u),
    ensures
        execution::reaches(h, f, s, u),
{
    let n = choose|n: nat| #[trigger] execution::walked(h, f, s, n) == t;
    let m = choose|m: nat| #[trigger] execution::walked(h, f, t, m) == u;
    walk_adds(h, f, s, n, m);
    assert(execution::walked(h, f, s, n + m) == u);
}

proof fn part_before(f: Seq<OpView>, s: PlanView, t: PlanView)
    requires
        grows(s, t),
        is_part(f, t),
    ensures
        is_part(f, s),
{
    assert forall|p: int| 0 <= p < s.ops.len() implies #[trigger] f[p] == s.ops[p] by {
        assert(t.ops[p] == s.ops[p]);
    }
}

proof fn grow_on(s: PlanView, t: PlanView, u: PlanView)
    requires
        grows(s, t),
        grows(t, u),
    ensures
        grows(s, u),
{
    assert forall|p: int| 0 <= p < s.ops.len() implies #[trigger] u.ops[p] == s.ops[p] by {
        assert(t.ops[p] == s.ops[p]);
    }
    if u.ops.len() <= usize::MAX {
        assert forall|p: int| s.ops.len() <= p < u.ops.len() implies is_inward(#[trigger] u.ops[p], s.ops.len() as int, p) by {
            if p < t.ops.len() {
                assert(u.ops[p] == t.ops[p]);
                assert(is_inward(t.ops[p], s.ops.len() as int, p));
            }
        }
    }
}

/// What flows on flows there.
proof fn chain(h: Host, f: Seq<OpView>, s: PlanView, m: Mach, s1: PlanView, m1: Mach, t: PlanView, n: Mach)
    requires
        flows(h, f, s, m, s1, m1),
        flows(h, f, s1, m1, t, n),
    ensures
        flows(h, f, s, m, t, n),
        is_part(f, t) ==> is_part(f, s1),
{
    grow_on(s, s1, t);
    if is_part(f, t) {
        part_before(f, s1, t);
        reach_on(h, f, Spot::At(s.ops.len() as int, m), Spot::At(s1.ops.len() as int, m1), Spot::At(t.ops.len() as int, n));
    }
}

spec fn is_plain(op: OpView) -> bool {
    !(op is Brif) && !(op is Jump) && !(op is Return) && !(op is SwitchTo) && !(op is AppendParam)
}

/// A request is carried out.
proof fn op_runs(h: Host, f: Seq<OpView>, s: PlanView, op: OpView, m: Mach) -> (n: Mach)
    requires
        is_plain(op),
    ensures
        flows(h, f, s, m, clif::emit(s, op), n),
        is_part(f, clif::emit(s, op)) ==> clif::next(s) == s.ops.len() && f[s.ops.len() as int] == op && n == execution::carried_out(h, f, clif::next(s), m),
{
    let t = clif::emit(s, op);
    if is_part(f, t) {
        assert(t.ops[s.ops.len() as int] == op);
        assert(f[s.ops.len() as int] == t.ops[s.ops.len() as int]);
        reach_one(h, f, Spot::At(s.ops.len() as int, m));
    }
    execution::carried_out(h, f, clif::next(s), m)
}

proof fn ensure_runs(h: Host, f: Seq<OpView>, env: EnvView, s: PlanView, v: VarId, m: Mach)
    ensures
        flows(h, f, s, m, emission::ensure_var(env, s, v), m),
{
    reach_self(h, f, Spot::At(s.ops.len() as int, m));
    let op = OpView::DeclareVar { var: v, ty: emission::clif_ty(emission::repr_of(env, v)) };
    let n = op_runs(h, f, s, op, m);
    assert(emission::ensure_var(env, s, v).ops == s.ops || emission::ensure_var(env, s, v).ops == clif::emit(s, op).ops);
}

proof fn define_runs(h: Host, f: Seq<OpView>, env: EnvView, s: PlanView, v: VarId, x: usize, m: Mach) -> (n: Mach)
    ensures
        flows(h, f, s, m, emission::define(env, s, v, x), n),
        is_part(f, emission::define(env, s, v, x)) ==> n == (Mach { vars: m.vars.insert(v, m.vals[x]), ..m }),
{
    let s1 = emission::ensure_var(env, s, v);
    ensure_runs(h, f, env, s, v, m);
    let n = op_runs(h, f, s1, OpView::DefVar { var: v, value: x }, m);
    chain(h, f, s, m, s1, m, emission::define(env, s, v, x), n);
    n
}

proof fn use_runs(h: Host, f: Seq<OpView>, env: EnvView, s: PlanView, v: VarId, m: Mach) -> (n: Mach)
    ensures
        flows(h, f, s, m, emission::use_var(env, s, v).0, n),
        is_part(f, emission::use_var(env, s, v).0) ==> {
            let (t, x) = emission::use_var(env, s, v);
            s.ops.len() <= x < t.ops.len() && n == execution::put(m, x, m.vars[v])
        },
{
    let s1 = emission::ensure_var(env, s, v);
    ensure_runs(h, f, env, s, v, m);
    let n = op_runs(h, f, s1, OpView::UseVar(v), m);
    chain(h, f, s, m, s1, m, emission::use_var(env, s, v).0, n);
    n
}

proof fn call_runs(h: Host, f: Seq<OpView>, s: PlanView, rt: RtFn, args: Seq<usize>, m: Mach) -> (n: Mach)
    ensures
        flows(h, f, s, m, emission::call_rt(s, rt, args).0, n),
        is_part(f, emission::call_rt(s, rt, args).0) ==> {
            let (t, x) = emission::call_rt(s, rt, args);
            let r = (h.rt)(rt, execution::words(m, args), m.world);
            s.ops.len() <= x < t.ops.len() && n == execution::put(Mach { world: r.1, ..m }, x, r.0)
        },
{
    let (s1, func) = emission::req(s, OpView::ImportRt(rt));
    let m1 = op_runs(h, f, s, OpView::ImportRt(rt), m);
    let n = op_runs(h, f, s1, OpView::Call { func, args }, m1);
    chain(h, f, s, m, s1, m1, emission::call_rt(s, rt, args).0, n);
    n
}

proof fn void_runs(h: Host, f: Seq<OpView>, s: PlanView, rt: RtFn, args: Seq<usize>, m: Mach) -> (n: Mach)
    ensures
        flows(h, f, s, m, emission::call_rt_void(s, rt, args), n),
        is_part(f, emission::call_rt_void(s, rt, args)) ==> n == (Mach { world: (h.rt)(rt, execution::words(m, args), m.world).1, ..m }),
{
    let (s1, func) = emission::req(s, OpView::ImportRt(rt));
    let m1 = op_runs(h, f, s, OpView::ImportRt(rt), m);
    let n = op_runs(h, f, s1, OpView::CallVoid { func, args }, m1);
    chain(h, f, s, m, s1, m1, emission::call_rt_void(s, rt, args), n);
    n
}

/// A variable is read as a boxed value.
proof fn boxed_runs(h: Host, f: Seq<OpView>, env: EnvView, s: PlanView, v: VarId, m: Mach) -> (n: Mach)
    requires
        execution::is_fair(h),
    ensures
        flows(h, f, s, m, emission::use_boxed(env, s, v).0, n),
        emission::use_boxed(env, s, v).0.ops.len() > s.ops.len(),
        is_part(f, emission::use_boxed(env, s, v).0) ==> {
            let (t, x) = emission::use_boxed(env, s, v);
            &&& s.ops.len() <= x < t.ops.len()
            &&& still(m, n, s.ops.len() as int)
            &&& n.world == m.world
            &&& n.cells == m.cells
            &&& n.vals[x] == execution::value_of(h, reading(env), m.vars, v)
        },
{
    let (s1, raw) = emission::use_var(env, s, v);
    let m1 = use_runs(h, f, env, s, v, m);
    assert(execution::words(m1, seq![raw]) =~= seq![m1.vals[raw]]);
    match emission::repr_of(env, v) {
        Repr::Boxed => m1,
        Repr::Long => {
            let n = call_runs(h, f, s1, RtFn::ConstLong, seq![raw], m1);
            chain(h, f, s, m, s1, m1, emission::use_boxed(env, s, v).0, n);
            n
        },
        Repr::Double => {
            let n = call_runs(h, f, s1, RtFn::ConstDouble, seq![raw], m1);
            chain(h, f, s, m, s1, m1, emission::use_boxed(env, s, v).0, n);
            n
        },
        Repr::Bool => {
            let n = call_runs(h, f, s1, RtFn::BoxBool, seq![raw], m1);
            chain(h, f, s, m, s1, m1, emission::use_boxed(env, s, v).0, n);
            n
        },
    }
}

/// Variables are read as boxed values, behind those that have been.
proof fn all_boxed_run(h: Host, f: Seq<OpView>, env: EnvView, s: PlanView, vs: Seq<VarId>, i: int, done: Seq<usize>, m: Mach) -> (n: Mach)
    requires
        execution::is_fair(h),
        0 <= i <= vs.len(),
    ensures
        flows(h, f, s, m, emission::use_all_boxed(env, s, vs, i, done).0, n),
        is_part(f, emission::use_all_boxed(env, s, vs, i, done).0) && are_below(done, s.ops.len() as int) ==> {
            let (t, xs) = emission::use_all_boxed(env, s, vs, i, done);
            &&& still(m, n, s.ops.len() as int)
            &&& n.world == m.world
            &&& n.cells == m.cells
            &&& execution::words(n, xs) == execution::words(m, done) + execution::values_of(h, reading(env), m.vars, vs.skip(i))
        },
    decreases vs.len() - i,
{
    if i >= vs.len() {
        reach_self(h, f, Spot::At(s.ops.len() as int, m));
        assert(execution::words(m, done) =~= execution::words(m, done) + execution::values_of(h, reading(env), m.vars, vs.skip(i)));
        m
    } else {
        let (s1, x) = emission::use_boxed(env, s, vs[i]);
        let m1 = boxed_runs(h, f, env, s, vs[i], m);
        let t = emission::use_all_boxed(env, s, vs, i, done).0;
        let n = all_boxed_run(h, f, env, s1, vs, i + 1, done.push(x), m1);
        chain(h, f, s, m, s1, m1, t, n);
        if is_part(f, t) && are_below(done, s.ops.len() as int) {
            assert(vs.skip(i) =~= seq![vs[i]] + vs.skip(i + 1));
            assert(execution::words(m1, done.push(x)) =~= execution::words(m, done).push(m1.vals[x]));
            assert(execution::words(m, done) + execution::values_of(h, reading(env), m.vars, vs.skip(i))
                =~= execution::words(m, done).push(m1.vals[x]) + execution::values_of(h, reading(env), m.vars, vs.skip(i + 1)));
        }
        n
    }
}

/// A variable is read for a phi.
proof fn coerce_runs(h: Host, f: Seq<OpView>, env: EnvView, s: PlanView, v: VarId, target: Repr, m: Mach) -> (n: Mach)
    requires
        execution::is_fair(h),
        emission::coerce(env, s, v, target) is Ok,
    ensures
        ({
            let (t, x) = emission::coerce(env, s, v, target)->Ok_0;
            &&& flows(h, f, s, m, t, n)
            &&& is_part(f, t) ==> {
                &&& s.ops.len() <= x < t.ops.len()
                &&& still(m, n, s.ops.len() as int)
                &&& n.world == m.world
                &&& execution::kept(h, reading(env), m.vars, v, target) == Some(n.vals[x])
            }
        }),
{
    if emission::repr_of(env, v) == target {
        use_runs(h, f, env, s, v, m)
    } else {
        boxed_runs(h, f, env, s, v, m)
    }
}

proof fn entry_is_taken(es: Seq<(BlockId, VarId)>, from: BlockId, i: int)
    requires
        0 <= i <= es.len(),
    ensures
        i <= emission::entry_for(es, from, i) <= es.len(),
        execution::taken(es, from, i) == (if emission::entry_for(es, from, i) < es.len() { Some(es[emission::entry_for(es, from, i)].1) } else { None }),
    decreases es.len() - i,
{
    if i < es.len() && es[i].0 != from {
        entry_is_taken(es, from, i + 1);
    }
}

/// Every phi takes something from block `from`.
pub open spec fn are_fed(phis: Seq<Inst>, from: BlockId) -> bool {
    forall|k: int| 0 <= k < phis.len() ==> #[trigger] phis[k] is Phi && execution::taken(phis[k]->Phi_1@, from, 0) is Some
}

/// The words are what the phis from `i` on take from block `from`, each as the phi is kept.
pub open spec fn are_brought(h: Host, e: Reading, phis: Seq<Inst>, from: BlockId, vars: Vars, ws: Seq<int>) -> bool {
    &&& ws.len() == phis.len()
    &&& forall|k: int| 0 <= k < phis.len() ==> {
        let v = execution::taken((#[trigger] phis[k])->Phi_1@, from, 0)->Some_0;
        execution::kept(h, e, vars, v, execution::kept_as(e.reprs, phis[k]->Phi_0)) == Some(ws[k])
    }
}

proof fn phi_args_run(h: Host, f: Seq<OpView>, env: EnvView, s: PlanView, phis: Seq<Inst>, from: BlockId, i: int, done: Seq<usize>, m: Mach) -> (n: Mach)
    requires
        execution::is_fair(h),
        0 <= i <= phis.len(),
        emission::phi_args(env, s, phis, from, i, done) is Ok,
    ensures
        ({
            let (t, xs) = emission::phi_args(env, s, phis, from, i, done)->Ok_0;
            &&& flows(h, f, s, m, t, n)
            &&& is_part(f, t) && are_below(done, s.ops.len() as int) ==> {
                &&& still(m, n, s.ops.len() as int)
                &&& n.world == m.world
                &&& are_below(xs, t.ops.len() as int)
                &&& are_fed(phis, from) && done.len() == i ==> {
                    &&& xs.len() == phis.len()
                    &&& forall|k: int| 0 <= k < i ==> #[trigger] xs[k] == done[k]
                    &&& forall|k: int| i <= k < phis.len() ==> {
                        let v = execution::taken((#[trigger] phis[k])->Phi_1@, from, 0)->Some_0;
                        execution::kept(h, reading(env), m.vars, v, execution::kept_as(env.reprs, phis[k]->Phi_0)) == Some(n.vals[xs[k]])
                    }
                }
            }
        }),
    decreases phis.len() - i,
{
    if i >= phis.len() {
        reach_self(h, f, Spot::At(s.ops.len() as int, m));
        m
    } else {
        let (t, xs) = emission::phi_args(env, s, phis, from, i, done)->Ok_0;
        match phis[i] {
            Inst::Phi(dst, entries) => {
                let k = emission::entry_for(entries@, from, 0);
                entry_is_taken(entries@, from, 0);
                if k < entries@.len() {
                    let v = entries@[k].1;
                    let (s1, x) = emission::coerce(env, s, v, emission::repr_of(env, dst))->Ok_0;
                    let m1 = coerce_runs(h, f, env, s, v, emission::repr_of(env, dst), m);
                    let n = phi_args_run(h, f, env, s1, phis, from, i + 1, done.push(x), m1);
                    chain(h, f, s, m, s1, m1, t, n);
                    if is_part(f, t) && are_below(done, s.ops.len() as int) && are_fed(phis, from) && done.len() == i {
                        assert(xs[i] == done.push(x)[i]);
                        assert(n.vals[x] == m1.vals[x]);
                        assert forall|j: int| 0 <= j < i implies #[trigger] xs[j] == done[j] by {
                            assert(done.push(x)[j] == done[j]);
                        }
                        assert forall|j: int| i <= j < phis.len() implies {
                            let u = execution::taken((#[trigger] phis[j])->Phi_1@, from, 0)->Some_0;
                            execution::kept(h, reading(env), m.vars, u, execution::kept_as(env.reprs, phis[j]->Phi_0)) == Some(n.vals[xs[j]])
                        } by {
                            if j == i {
                                assert(phis[j]->Phi_1@ == entries@);
                            }
                        }
                    }
                    n
                } else {
                    let n = phi_args_run(h, f, env, s, phis, from, i + 1, done, m);
                    if are_fed(phis, from) {
                        assert(phis[i] is Phi && execution::taken(phis[i]->Phi_1@, from, 0) is Some);
                    }
                    n
                }
            },
            _ => {
                let n = phi_args_run(h, f, env, s, phis, from, i + 1, done, m);
                if are_fed(phis, from) {
                    assert(phis[i] is Phi);
                }
                n
            },
        }
    }
}

/// The edge from block `from` to block `to` is read.
proof fn edge_runs(h: Host, f: Seq<OpView>, env: EnvView, s: PlanView, blocks: Seq<Block>, to: BlockId, from: BlockId, m: Mach) -> (n: Mach)
    requires
        execution::is_fair(h),
        emission::edge_args(env, s, blocks, to, from) is Ok,
    ensures
        ({
            let (t, xs) = emission::edge_args(env, s, blocks, to, from)->Ok_0;
            let b = ir::first_block(blocks, to, 0);
            &&& flows(h, f, s, m, t, n)
            &&& is_part(f, t) ==> {
                &&& still(m, n, s.ops.len() as int)
                &&& n.world == m.world
                &&& are_below(xs, t.ops.len() as int)
                &&& 0 <= b < blocks.len() && are_fed(blocks[b].phis@, from) ==> are_brought(h, reading(env), blocks[b].phis@, from, m.vars, execution::words(n, xs))
            }
        }),
{
    let b = ir::first_block(blocks, to, 0);
    ir::first_block_bounds(blocks, to, 0);
    if b < blocks.len() {
        phi_args_run(h, f, env, s, blocks[b].phis@, from, 0, Seq::empty(), m)
    } else {
        reach_self(h, f, Spot::At(s.ops.len() as int, m));
        m
    }
}

/// A request that leads elsewhere does so.
proof fn leap(h: Host, f: Seq<OpView>, s: PlanView, op: OpView, m: Mach)
    requires
        op is Brif || op is Jump || op is Return,
    ensures
        grows(s, clif::emit(s, op)),
        is_part(f, clif::emit(s, op)) ==> f[s.ops.len() as int] == op && is_part(f, s)
            && execution::reaches(h, f, Spot::At(s.ops.len() as int, m), execution::moved(h, f, Spot::At(s.ops.len() as int, m))),
{
    let t = clif::emit(s, op);
    reach_one(h, f, Spot::At(s.ops.len() as int, m));
    if is_part(f, t) {
        assert(t.ops[s.ops.len() as int] == op);
        assert(f[s.ops.len() as int] == t.ops[s.ops.len() as int]);
        part_before(f, s, t);
    }
}

/// What flows to a request that leads elsewhere goes there.
proof fn leap_on(h: Host, f: Seq<OpView>, s: PlanView, m: Mach, s1: PlanView, m1: Mach, op: OpView)
    requires
        flows(h, f, s, m, s1, m1),
        op is Brif || op is Jump || op is Return,
    ensures
        grows(s, clif::emit(s1, op)),
        is_part(f, clif::emit(s1, op)) ==> f[s1.ops.len() as int] == op && is_part(f, s1)
            && execution::reaches(h, f, Spot::At(s.ops.len() as int, m), execution::moved(h, f, Spot::At(s1.ops.len() as int, m1))),
{
    leap(h, f, s1, op, m1);
    grow_on(s, s1, clif::emit(s1, op));
    if is_part(f, clif::emit(s1, op)) {
        reach_on(h, f, Spot::At(s.ops.len() as int, m), Spot::At(s1.ops.len() as int, m1), execution::moved(h, f, Spot::At(s1.ops.len() as int, m1)));
    }
}

/// Where the end of a block leads by what its variables are.
pub open spec fn next_block(h: Host, e: Reading, term: Terminator, vars: Vars) -> Option<BlockId> {
    match term {
        Terminator::Jump(to) => Some(to),
        Terminator::Branch { cond, then_block, else_block } => Some(if (h.truthy)(execution::value_of(h, e, vars, cond)) { then_block } else { else_block }),
        Terminator::RecurJump { target, args } => Some(target),
        _ => None,
    }
}

/// The words are what the first phis are given, each as the phi is kept.
pub open spec fn are_passed(h: Host, e: Reading, phis: Seq<Inst>, args: Seq<VarId>, vars: Vars, ws: Seq<int>) -> bool {
    &&& ws.len() == phis.len()
    &&& forall|k: int| 0 <= k < phis.len() && phis[k] is Phi ==> execution::kept(h, e, vars, args[k], execution::kept_as(e.reprs, (#[trigger] phis[k])->Phi_0)) == Some(ws[k])
}

proof fn recur_args_run(h: Host, f: Seq<OpView>, env: EnvView, s: PlanView, args: Seq<VarId>, phis: Seq<Inst>, i: int, done: Seq<usize>, m: Mach) -> (n: Mach)
    requires
        execution::is_fair(h),
        0 <= i <= args.len(),
        emission::recur_args(env, s, args, phis, i, done) is Ok,
    ensures
        ({
            let (t, xs) = emission::recur_args(env, s, args, phis, i, done)->Ok_0;
            &&& flows(h, f, s, m, t, n)
            &&& is_part(f, t) && are_below(done, s.ops.len() as int) ==> {
                &&& still(m, n, s.ops.len() as int)
                &&& n.world == m.world
                &&& args.len() == phis.len() && done.len() == i ==> {
                    &&& xs.len() == phis.len()
                    &&& forall|k: int| 0 <= k < i ==> #[trigger] xs[k] == done[k]
                    &&& forall|k: int| i <= k < phis.len() && phis[k] is Phi ==> execution::kept(h, reading(env), m.vars, args[k], execution::kept_as(env.reprs, (#[trigger] phis[k])->Phi_0)) == Some(n.vals[xs[k]])
                }
            }
        }),
    decreases args.len() - i,
{
    if i >= args.len() || i >= phis.len() {
        reach_self(h, f, Spot::At(s.ops.len() as int, m));
        m
    } else {
        let (t, xs) = emission::recur_args(env, s, args, phis, i, done)->Ok_0;
        let target = match phis[i] {
            Inst::Phi(dst, _) => emission::repr_of(env, dst),
            _ => Repr::Boxed,
        };
        let (s1, x) = emission::coerce(env, s, args[i], target)->Ok_0;
        let m1 = coerce_runs(h, f, env, s, args[i], target, m);
        let n = recur_args_run(h, f, env, s1, args, phis, i + 1, done.push(x), m1);
        chain(h, f, s, m, s1, m1, t, n);
        if is_part(f, t) && are_below(done, s.ops.len() as int) && args.len() == phis.len() && done.len() == i {
            assert(xs[i] == done.push(x)[i]);
            assert(n.vals[x] == m1.vals[x]);
            assert forall|j: int| 0 <= j < i implies #[trigger] xs[j] == done[j] by {
                assert(done.push(x)[j] == done[j]);
            }
        }
        n
    }
}

/// The end of a block does what it should: it leaves the function with the boxed value that is
/// returned, or goes to the block of the plan for the one that it leads to, a branch to that of its
/// first block exactly where its value is true, with the words that the phis there take.
proof fn term_runs(h: Host, f: Seq<OpView>, env: EnvView, s: PlanView, term: Terminator, from: BlockId, blocks: Seq<Block>, m: Mach) -> (n: (Seq<int>, Mach))
    requires
        execution::is_fair(h),
        emission::term_ops(env, s, term, from, blocks) is Ok,
    ensures
        ({
            let t = emission::term_ops(env, s, term, from, blocks)->Ok_0;
            let here = Spot::At(s.ops.len() as int, m);
            &&& grows(s, t)
            &&& is_part(f, t) ==> match term {
                Terminator::Return(v) => execution::reaches(h, f, here, Spot::Left(execution::value_of(h, reading(env), m.vars, v), m.world)),
                Terminator::Unreachable => execution::reaches(h, f, here, Spot::Left(h.nil, m.world)),
                _ => {
                    let to = next_block(h, reading(env), term, m.vars)->Some_0;
                    let b = ir::first_block(blocks, to, 0);
                    &&& execution::reaches(h, f, here, Spot::To(env.blocks[to.0], n.0, n.1))
                    &&& n.1.vars == m.vars
                    &&& n.1.params == m.params
                    &&& n.1.world == m.world
                    &&& !(term is RecurJump) && 0 <= b < blocks.len() && are_fed(blocks[b].phis@, from) ==> are_brought(h, reading(env), blocks[b].phis@, from, m.vars, n.0)
                    &&& term is RecurJump && 0 <= b < blocks.len() && blocks[b].phis@.len() == term->RecurJump_args@.len() ==> are_passed(h, reading(env), blocks[b].phis@, term->RecurJump_args@, m.vars, n.0)
                },
            }
        }),
{
    let e = reading(env);
    match term {
        Terminator::Return(v) => {
            let (s1, x) = emission::use_boxed(env, s, v);
            let m1 = boxed_runs(h, f, env, s, v, m);
            leap_on(h, f, s, m, s1, m1, OpView::Return(x));
            (Seq::empty(), m)
        },
        Terminator::Jump(target) => {
            let (s1, args) = emission::edge_args(env, s, blocks, target, from)->Ok_0;
            let m1 = edge_runs(h, f, env, s, blocks, target, from, m);
            leap_on(h, f, s, m, s1, m1, OpView::Jump { block: env.blocks[target.0], args });
            (execution::words(m1, args), m1)
        },
        Terminator::Branch { cond, then_block, else_block } => {
            let (s1, then_args) = emission::edge_args(env, s, blocks, then_block, from)->Ok_0;
            let (s2, else_args) = emission::edge_args(env, s1, blocks, else_block, from)->Ok_0;
            let m1 = edge_runs(h, f, env, s, blocks, then_block, from, m);
            let m2 = edge_runs(h, f, env, s1, blocks, else_block, from, m1);
            chain(h, f, s, m, s1, m1, s2, m2);
            let then_b = env.blocks[then_block.0];
            let else_b = env.blocks[else_block.0];
            let t = emission::term_ops(env, s, term, from, blocks)->Ok_0;
            let yes = (h.truthy)(execution::value_of(h, e, m.vars, cond));
            match emission::repr_of(env, cond) {
                Repr::Bool => {
                    let (s3, x) = emission::use_var(env, s2, cond);
                    let m3 = use_runs(h, f, env, s2, cond, m2);
                    chain(h, f, s, m, s2, m2, s3, m3);
                    leap_on(h, f, s, m, s3, m3, OpView::Brif { cond: x, then_block: then_b, then_args, else_block: else_b, else_args });
                    if is_part(f, t) {
                        assert(execution::words(m3, then_args) =~= execution::words(m1, then_args));
                        assert(execution::words(m3, else_args) =~= execution::words(m2, else_args));
                    }
                    (if yes { execution::words(m3, then_args) } else { execution::words(m3, else_args) }, m3)
                },
                Repr::Boxed => {
                    let (s3, x) = emission::use_var(env, s2, cond);
                    let m3 = use_runs(h, f, env, s2, cond, m2);
                    let (s4, y) = emission::call_rt(s3, RtFn::Truthiness, seq![x]);
                    let m4 = call_runs(h, f, s3, RtFn::Truthiness, seq![x], m3);
                    assert(execution::words(m3, seq![x]) =~= seq![m3.vals[x]]);
                    chain(h, f, s2, m2, s3, m3, s4, m4);
                    chain(h, f, s, m, s2, m2, s4, m4);
                    leap_on(h, f, s, m, s4, m4, OpView::Brif { cond: y, then_block: then_b, then_args, else_block: else_b, else_args });
                    if is_part(f, t) {
                        assert(execution::words(m4, then_args) =~= execution::words(m1, then_args));
                        assert(execution::words(m4, else_args) =~= execution::words(m2, else_args));
                    }
                    (if yes { execution::words(m4, then_args) } else { execution::words(m4, else_args) }, m4)
                },
                _ => {
                    leap_on(h, f, s, m, s2, m2, OpView::Jump { block: then_b, args: then_args });
                    if is_part(f, t) {
                        assert(execution::words(m2, then_args) =~= execution::words(m1, then_args));
                    }
                    (execution::words(m2, then_args), m2)
                },
            }
        },
        Terminator::RecurJump { target, args } => {
            let s1 = emission::call_rt_void(s, RtFn::Safepoint, Seq::empty());
            let m1 = void_runs(h, f, s, RtFn::Safepoint, Seq::empty(), m);
            assert(execution::words(m, Seq::empty()) =~= Seq::<int>::empty());
            let b = ir::first_block(blocks, target, 0);
            ir::first_block_bounds(blocks, target, 0);
            if b < blocks.len() {
                let (s2, xs) = emission::recur_args(env, s1, args@, blocks[b].phis@, 0, Seq::empty())->Ok_0;
                let m2 = recur_args_run(h, f, env, s1, args@, blocks[b].phis@, 0, Seq::empty(), m1);
                chain(h, f, s, m, s1, m1, s2, m2);
                leap_on(h, f, s, m, s2, m2, OpView::Jump { block: env.blocks[target.0], args: xs });
                (execution::words(m2, xs), m2)
            } else {
                let (s2, xs) = emission::use_all_boxed(env, s1, args@, 0, Seq::empty());
                let m2 = all_boxed_run(h, f, env, s1, args@, 0, Seq::empty(), m1);
                chain(h, f, s, m, s1, m1, s2, m2);
                leap_on(h, f, s, m, s2, m2, OpView::Jump { block: env.blocks[target.0], args: xs });
                (execution::words(m2, xs), m2)
            }
        },
        Terminator::Unreachable => {
            let (s1, x) = emission::call_rt(s, RtFn::ConstNil, Seq::empty());
            let m1 = call_runs(h, f, s, RtFn::ConstNil, Seq::empty(), m);
            assert(execution::words(m, Seq::empty()) =~= Seq::<int>::empty());
            leap_on(h, f, s, m, s1, m1, OpView::Return(x));
            (Seq::empty(), m)
        },
    }
}

/// Blocks are opened behind where they were made.
pub open spec fn is_sane(s: PlanView) -> bool {
    forall|p: int| 0 <= p < s.ops.len() ==> ((#[trigger] s.ops[p]) matches OpView::SwitchTo(b) ==> b < p)
}

/// Blocks made from request `base` on have one parameter at most, at once.
pub open spec fn is_neat(f: Seq<OpView>, base: int) -> bool {
    forall|p: int| 0 <= p < f.len() ==> ((#[trigger] f[p]) matches OpView::AppendParam { block, ty } ==> block < base || p == block + 1)
}

proof fn sane_on(s: PlanView, t: PlanView)
    requires
        grows(s, t),
        is_sane(s),
        t.ops.len() <= usize::MAX,
    ensures
        is_sane(t),
{
    assert forall|p: int| 0 <= p < t.ops.len() implies ((#[trigger] t.ops[p]) matches OpView::SwitchTo(b) ==> b < p) by {
        if p < s.ops.len() {
            assert(t.ops[p] == s.ops[p]);
        } else {
            assert(is_inward(t.ops[p], s.ops.len() as int, p));
        }
    }
}

proof fn landing_at(f: Seq<OpView>, b: usize, i: int, p: int)
    requires
        0 <= i <= p < f.len(),
        f[p] == OpView::SwitchTo(b),
        forall|q: int| i <= q < p ==> #[trigger] f[q] != OpView::SwitchTo(b),
    ensures
        execution::landing(f, b, i) == Some(p + 1),
    decreases p - i,
{
    if i < p {
        assert(f[i] != OpView::SwitchTo(b));
        landing_at(f, b, i + 1, p);
    }
}

proof fn given_nothing(f: Seq<OpView>, b: usize, args: Seq<int>, vals: Map<usize, int>, n: int)
    requires
        n <= f.len(),
        forall|p: int| 0 <= p < n ==> !execution::is_param_of(#[trigger] f[p], b),
    ensures
        execution::given(f, b, args, vals, n) == vals,
        execution::params_before(f, b, n) == 0,
    decreases n,
{
    if n > 0 {
        assert(!execution::is_param_of(f[n - 1], b));
        given_nothing(f, b, args, vals, n - 1);
    }
}

/// A block of its own without a parameter is entered with everything as it was.
proof fn inner_landing(h: Host, f: Seq<OpView>, base: int, s: PlanView, b: usize, p: int, args: Seq<int>, m: Mach)
    requires
        is_part(f, s),
        is_sane(s),
        is_neat(f, base),
        base <= s.ops.len() <= b,
        s.ops.len() <= p < f.len(),
        f[p] == OpView::SwitchTo(b),
        forall|q: int| s.ops.len() <= q < p ==> #[trigger] f[q] != OpView::SwitchTo(b),
        b + 1 < f.len() ==> !(f[b + 1] is AppendParam),
    ensures
        execution::reaches(h, f, Spot::To(b, args, m), Spot::At(p + 1, m)),
{
    assert forall|q: int| 0 <= q < p implies #[trigger] f[q] != OpView::SwitchTo(b) by {
        if q < s.ops.len() {
            assert(f[q] == s.ops[q]);
        }
    }
    landing_at(f, b, 0, p);
    assert forall|q: int| 0 <= q < f.len() implies !execution::is_param_of(#[trigger] f[q], b) by {
    }
    given_nothing(f, b, args, m.vals, f.len() as int);
    reach_one(h, f, Spot::To(b, args, m));
}

/// The branch behind a checked operation: on where the test holds, and out with the exception
/// otherwise.
proof fn overflow_runs(h: Host, f: Seq<OpView>, base: int, s: PlanView, fits: usize, m: Mach)
    ensures
        grows(s, emission::overflow_branch(s, fits)),
        is_part(f, emission::overflow_branch(s, fits)) && is_sane(s) && is_neat(f, base) && base <= s.ops.len() ==> {
            let t = emission::overflow_branch(s, fits);
            let here = Spot::At(s.ops.len() as int, m);
            let (error, w1) = (h.rt)(RtFn::OverflowError, Seq::empty(), m.world);
            let (nil, w2) = (h.rt)(RtFn::Throw, seq![error], w1);
            &&& m.vals[fits] != 0 ==> execution::reaches(h, f, here, Spot::At(t.ops.len() as int, m))
            &&& m.vals[fits] == 0 ==> execution::reaches(h, f, here, Spot::Left(nil, w2))
        },
{
    let (s1, over) = emission::req(s, OpView::CreateBlock);
    let (s2, cont) = emission::req(s1, OpView::CreateBlock);
    let brif = OpView::Brif { cond: fits, then_block: cont, then_args: Seq::empty(), else_block: over, else_args: Seq::empty() };
    let s3 = clif::emit(s2, brif);
    let s4 = clif::emit(s3, OpView::SwitchTo(over));
    let (s5, error) = emission::call_rt(s4, RtFn::OverflowError, Seq::empty());
    let (s6, nil) = emission::call_rt(s5, RtFn::Throw, seq![error]);
    let s7 = clif::emit(s6, OpView::Return(nil));
    let t = clif::emit(s7, OpView::SwitchTo(cont));
    let n = s.ops.len() as int;
    assert(t.ops.len() == n + 10);
    assert(t.ops[n] == OpView::CreateBlock && t.ops[n + 1] == OpView::CreateBlock && t.ops[n + 2] == brif && t.ops[n + 3] == OpView::SwitchTo(over));
    assert(t.ops[n + 4] == OpView::ImportRt(RtFn::OverflowError) && t.ops[n + 6] == OpView::ImportRt(RtFn::Throw));
    assert(t.ops[n + 5] is Call && t.ops[n + 7] is Call && t.ops[n + 8] == OpView::Return(nil) && t.ops[n + 9] == OpView::SwitchTo(cont));
    assert(t == emission::overflow_branch(s, fits));
    assert forall|p: int| 0 <= p < n implies #[trigger] t.ops[p] == s.ops[p] by {}
    if t.ops.len() <= usize::MAX {
        assert forall|p: int| n <= p < t.ops.len() implies is_inward(#[trigger] t.ops[p], n, p) by {
            assert(p == n || p == n + 1 || p == n + 2 || p == n + 3 || p == n + 4 || p == n + 5 || p == n + 6 || p == n + 7 || p == n + 8 || p == n + 9);
        }
    }
    let m1 = op_runs(h, f, s, OpView::CreateBlock, m);
    let m2 = op_runs(h, f, s1, OpView::CreateBlock, m1);
    chain(h, f, s, m, s1, m1, s2, m2);
    leap_on(h, f, s, m, s2, m2, brif);
    let m5 = call_runs(h, f, s4, RtFn::OverflowError, Seq::empty(), m);
    let m6 = call_runs(h, f, s5, RtFn::Throw, seq![error], m5);
    chain(h, f, s4, m, s5, m5, s6, m6);
    leap_on(h, f, s4, m, s6, m6, OpView::Return(nil));
    if is_part(f, t) && is_sane(s) && is_neat(f, base) && base <= n {
        assert forall|p: int| 0 <= p < t.ops.len() implies #[trigger] f[p] == t.ops[p] by {}
        assert(f[n + 3] == OpView::SwitchTo(over) && f[n + 9] == OpView::SwitchTo(cont));
        assert(f[n + 1] == OpView::CreateBlock && f[n + 2] == brif);
        part_before(f, s, t);
        assert(is_part(f, s3)) by {
            assert forall|p: int| 0 <= p < s3.ops.len() implies #[trigger] f[p] == s3.ops[p] by {
                assert(t.ops[p] == s3.ops[p]);
            }
        }
        assert(is_part(f, s7)) by {
            assert forall|p: int| 0 <= p < s7.ops.len() implies #[trigger] f[p] == s7.ops[p] by {
                assert(t.ops[p] == s7.ops[p]);
            }
        }
        assert(is_part(f, s6)) by {
            assert forall|p: int| 0 <= p < s6.ops.len() implies #[trigger] f[p] == s6.ops[p] by {
                assert(t.ops[p] == s6.ops[p]);
            }
        }
        assert(is_part(f, s5)) by {
            assert forall|p: int| 0 <= p < s5.ops.len() implies #[trigger] f[p] == s5.ops[p] by {
                assert(t.ops[p] == s5.ops[p]);
            }
        }
        assert(m2 == m);
        let none = execution::words(m, Seq::empty());
        assert(none =~= Seq::<int>::empty());
        if m.vals[fits] != 0 {
            assert forall|q: int| n <= q < n + 9 implies #[trigger] f[q] != OpView::SwitchTo(cont) by {
                assert(q == n || q == n + 1 || q == n + 2 || q == n + 3 || q == n + 4 || q == n + 5 || q == n + 6 || q == n + 7 || q == n + 8);
                assert(f[q] == t.ops[q]);
            }
            inner_landing(h, f, base, s, cont, n + 9, none, m);
            reach_on(h, f, Spot::At(n, m), Spot::To(cont, none, m), Spot::At(n + 10, m));
        } else {
            assert forall|q: int| n <= q < n + 3 implies #[trigger] f[q] != OpView::SwitchTo(over) by {
                assert(q == n || q == n + 1 || q == n + 2);
                assert(f[q] == t.ops[q]);
            }
            inner_landing(h, f, base, s, over, n + 3, none, m);
            reach_on(h, f, Spot::At(n, m), Spot::To(over, none, m), Spot::At(n + 4, m));
            assert(execution::words(m5, seq![error]) =~= seq![m5.vals[error]]);
            let out = execution::moved(h, f, Spot::At(s6.ops.len() as int, m6));
            reach_on(h, f, Spot::At(n, m), Spot::At(n + 4, m), out);
        }
    }
}

/// A word of a sum, a difference or a product is all of it exactly where the test says so.
proof fn fit_is_right(kf: KnownFn, x: int, y: int)
    requires
        execution::is_word(x),
        execution::is_word(y),
        execution::adds_up(kf),
    ensures
        ({
            let z = execution::whole(kf, x, y);
            let r = execution::wrapped(z);
            &&& execution::is_word(r)
            &&& execution::is_word(z) ==> r == z
            &&& kf is Add ==> ((r < x) == (y < 0) <==> execution::is_word(z))
            &&& kf is Sub ==> ((r < x) == (y > 0) <==> execution::is_word(z))
            &&& kf is Mul ==> (z / 0x1_0000_0000_0000_0000int == (r * 1) / 0x1_0000_0000_0000_0000int <==> execution::is_word(z))
        }),
{
    let z = execution::whole(kf, x, y);
    let q = z / 0x1_0000_0000_0000_0000int;
    let k = z % 0x1_0000_0000_0000_0000int;
    assert(z == q * 0x1_0000_0000_0000_0000int + k && 0 <= k < 0x1_0000_0000_0000_0000int);
}

/// Nothing but what new requests yield is different.
spec fn quiet(m: Mach, n: Mach, at: int) -> bool {
    still(m, n, at) && n.world == m.world && n.cells == m.cells
}

/// The plan can be carried out on from where it is.
pub open spec fn is_fine(f: Seq<OpView>, base: int, s: PlanView, t: PlanView) -> bool {
    is_part(f, t) && is_sane(s) && is_neat(f, base) && base <= s.ops.len()
}

/// The machine gets the word of an effect, or leaves as it says.
pub open spec fn gets(h: Host, f: Seq<OpView>, base: int, s: PlanView, m: Mach, t: PlanView, x: usize, n: Mach, e: Effect) -> bool {
    &&& grows(s, t)
    &&& is_fine(f, base, s, t) ==> match e {
        Effect::Gives(v, w) => {
            &&& execution::reaches(h, f, Spot::At(s.ops.len() as int, m), Spot::At(t.ops.len() as int, n))
            &&& n.vars == m.vars
            &&& n.params == m.params
            &&& n.world == w
            &&& n.vals[x] == v
        },
        Effect::Leaves(v, w) => execution::reaches(h, f, Spot::At(s.ops.len() as int, m), Spot::Left(v, w)),
        Effect::Unknown => true,
    }
}

proof fn fit_runs(h: Host, f: Seq<OpView>, s: PlanView, kf: KnownFn, x: usize, y: usize, r: usize, m: Mach) -> (n: Mach)
    requires
        execution::adds_up(kf),
    ensures
        flows(h, f, s, m, emission::fit_test(s, kf, x, y, r).0, n),
        is_part(f, emission::fit_test(s, kf, x, y, r).0) && x < s.ops.len() && y < s.ops.len() && r < s.ops.len() ==> {
            let (t, fits) = emission::fit_test(s, kf, x, y, r);
            let a = m.vals[x];
            let b = m.vals[y];
            &&& quiet(m, n, s.ops.len() as int)
            &&& fits < t.ops.len()
            &&& execution::is_word(a) && execution::is_word(b) && m.vals[r] == execution::wrapped(execution::whole(kf, a, b)) ==> (n.vals[fits] != 0 <==> execution::is_word(execution::whole(kf, a, b)))
        },
{
    let a = m.vals[x];
    let b = m.vals[y];
    if execution::is_word(a) && execution::is_word(b) {
        fit_is_right(kf, a, b);
    }
    let t = emission::fit_test(s, kf, x, y, r).0;
    if kf == KnownFn::Mul {
        let o1 = OpView::Binary { op: Arith::Smulhi, a: x, b: y };
        let (s1, high) = emission::req(s, o1);
        let m1 = op_runs(h, f, s, o1, m);
        let (s2, one) = emission::iconst64(s1, 1);
        let m2 = op_runs(h, f, s1, OpView::Iconst { ty: ClifTy::I64, value: 1 }, m1);
        let o3 = OpView::Binary { op: Arith::Smulhi, a: r, b: one };
        let (s3, sign) = emission::req(s2, o3);
        let m3 = op_runs(h, f, s2, o3, m2);
        let n = op_runs(h, f, s3, OpView::IntTest { cond: IntCond::Equal, a: high, b: sign }, m3);
        chain(h, f, s, m, s1, m1, s2, m2);
        chain(h, f, s, m, s2, m2, s3, m3);
        chain(h, f, s, m, s3, m3, t, n);
        n
    } else {
        let o1 = OpView::IntTest { cond: IntCond::SignedLessThan, a: r, b: x };
        let (s1, less) = emission::req(s, o1);
        let m1 = op_runs(h, f, s, o1, m);
        let o2 = OpView::IntTestImm { cond: if kf == KnownFn::Add { IntCond::SignedLessThan } else { IntCond::SignedGreaterThan }, a: y, imm: 0 };
        let (s2, down) = emission::req(s1, o2);
        let m2 = op_runs(h, f, s1, o2, m1);
        let n = op_runs(h, f, s2, OpView::IntTest { cond: IntCond::Equal, a: less, b: down }, m2);
        chain(h, f, s, m, s1, m1, s2, m2);
        chain(h, f, s, m, s2, m2, t, n);
        n
    }
}

/// Integers are added up where a word holds the result, and an overflow is thrown otherwise.
proof fn checked_runs(h: Host, f: Seq<OpView>, base: int, s: PlanView, kf: KnownFn, x: usize, y: usize, m: Mach) -> (n: Mach)
    requires
        execution::adds_up(kf),
    ensures
        grows(s, emission::checked_arith(s, kf, x, y).0),
        ({
            let (t, r) = emission::checked_arith(s, kf, x, y);
            let a = m.vals[x];
            let b = m.vals[y];
            is_fine(f, base, s, t) && x < s.ops.len() && y < s.ops.len() && execution::is_word(a) && execution::is_word(b) ==> {
                let (error, w1) = (h.rt)(RtFn::OverflowError, Seq::empty(), m.world);
                let (nil, w2) = (h.rt)(RtFn::Throw, seq![error], w1);
                &&& execution::is_word(execution::whole(kf, a, b)) ==> {
                    &&& execution::reaches(h, f, Spot::At(s.ops.len() as int, m), Spot::At(t.ops.len() as int, n))
                    &&& quiet(m, n, s.ops.len() as int)
                    &&& n.vals[r] == execution::whole(kf, a, b)
                }
                &&& !execution::is_word(execution::whole(kf, a, b)) ==> execution::reaches(h, f, Spot::At(s.ops.len() as int, m), Spot::Left(nil, w2))
            }
        }),
{
    let a = m.vals[x];
    let b = m.vals[y];
    let o1 = OpView::Binary { op: emission::int_arith(kf), a: x, b: y };
    let (s1, r) = emission::req(s, o1);
    let m1 = op_runs(h, f, s, o1, m);
    let (s2, fits) = emission::fit_test(s1, kf, x, y, r);
    let m2 = fit_runs(h, f, s1, kf, x, y, r, m1);
    chain(h, f, s, m, s1, m1, s2, m2);
    let t = emission::overflow_branch(s2, fits);
    overflow_runs(h, f, base, s2, fits, m2);
    grow_on(s, s2, t);
    if is_fine(f, base, s, t) && x < s.ops.len() && y < s.ops.len() && execution::is_word(a) && execution::is_word(b) {
        fit_is_right(kf, a, b);
        part_before(f, s2, t);
        part_before(f, s1, s2);
        sane_on(s, s2);
        let out = if execution::is_word(execution::whole(kf, a, b)) { Spot::At(t.ops.len() as int, m2) } else {
            let (error, w1) = (h.rt)(RtFn::OverflowError, Seq::empty(), m.world);
            let (nil, w2) = (h.rt)(RtFn::Throw, seq![error], w1);
            Spot::Left(nil, w2)
        };
        reach_on(h, f, Spot::At(s.ops.len() as int, m), Spot::At(s2.ops.len() as int, m2), out);
        assert(m2.vals[r] == m1.vals[r]);
    }
    m2
}

proof fn f64_runs(h: Host, f: Seq<OpView>, env: EnvView, s: PlanView, v: VarId, m: Mach) -> (n: Mach)
    requires
        emission::use_f64(env, s, v) is Ok,
    ensures
        ({
            let (t, x) = emission::use_f64(env, s, v)->Ok_0;
            let r = execution::kept_as(env.reprs, v);
            &&& flows(h, f, s, m, t, n)
            &&& r is Long || r is Double
            &&& is_part(f, t) ==> {
                &&& s.ops.len() <= x < t.ops.len()
                &&& quiet(m, n, s.ops.len() as int)
                &&& n.vals[x] == execution::as_float(h, r, m.vars[v])
            }
        }),
{
    let (s1, x) = emission::use_var(env, s, v);
    let m1 = use_runs(h, f, env, s, v, m);
    match emission::repr_of(env, v) {
        Repr::Long => {
            let n = op_runs(h, f, s1, OpView::FcvtFromSint(x), m1);
            chain(h, f, s, m, s1, m1, emission::use_f64(env, s, v)->Ok_0.0, n);
            n
        },
        _ => m1,
    }
}

/// Two variables are read as floats, and an operation is done on them.
proof fn floats_run(h: Host, f: Seq<OpView>, env: EnvView, s: PlanView, a: VarId, b: VarId, op: spec_fn(usize, usize) -> OpView, test: bool, k: Arith, c: FloatCond, m: Mach) -> (n: Mach)
    requires
        emission::float_op(env, s, a, b, op) is Ok,
        forall|x: usize, y: usize| #[trigger] op(x, y) == (if test { OpView::FloatTest { cond: c, a: x, b: y } } else { OpView::Binary { op: k, a: x, b: y } }),
    ensures
        ({
            let (t, z) = emission::float_op(env, s, a, b, op)->Ok_0;
            let ra = execution::kept_as(env.reprs, a);
            let rb = execution::kept_as(env.reprs, b);
            let x = execution::as_float(h, ra, m.vars[a]);
            let y = execution::as_float(h, rb, m.vars[b]);
            &&& flows(h, f, s, m, t, n)
            &&& (ra is Long || ra is Double) && (rb is Long || rb is Double)
            &&& is_part(f, t) ==> {
                &&& quiet(m, n, s.ops.len() as int)
                &&& n.vals[z] == (if test { execution::flag((h.float_test)(c, x, y)) } else { execution::computed(h, k, x, y) })
            }
        }),
{
    let (t, z) = emission::float_op(env, s, a, b, op)->Ok_0;
    let (s1, x) = emission::use_f64(env, s, a)->Ok_0;
    let (s2, y) = emission::use_f64(env, s1, b)->Ok_0;
    let m1 = f64_runs(h, f, env, s, a, m);
    let m2 = f64_runs(h, f, env, s1, b, m1);
    let n = op_runs(h, f, s2, op(x, y), m2);
    chain(h, f, s, m, s1, m1, s2, m2);
    chain(h, f, s, m, s2, m2, t, n);
    n
}

/// A known function on two raw words.
proof fn raw_runs(h: Host, f: Seq<OpView>, base: int, env: EnvView, s: PlanView, r: Repr, kf: KnownFn, a: VarId, b: VarId, m: Mach) -> (n: Mach)
    requires
        emission::unboxed_known(env, s, r, kf, a, b) is Ok,
    ensures
        ({
            let (t, x) = emission::unboxed_known(env, s, r, kf, a, b)->Ok_0;
            gets(h, f, base, s, m, t, x, n, execution::raw(h, reading(env), r, kf, a, b, m.vars, m.world))
        }),
{
    let (t, z) = emission::unboxed_known(env, s, r, kf, a, b)->Ok_0;
    let (s1, x) = emission::use_var(env, s, a);
    let (s2, y) = emission::use_var(env, s1, b);
    let m1 = use_runs(h, f, env, s, a, m);
    let m2 = use_runs(h, f, env, s1, b, m1);
    chain(h, f, s, m, s1, m1, s2, m2);
    if emission::is_arith(kf) && r == Repr::Long {
        let n = checked_runs(h, f, base, s2, kf, x, y, m2);
        grow_on(s, s2, t);
        if is_fine(f, base, s, t) {
            part_before(f, s2, t);
            part_before(f, s1, s2);
            sane_on(s, s2);
            match execution::raw(h, reading(env), r, kf, a, b, m.vars, m.world) {
                Effect::Gives(v, w) => reach_on(h, f, Spot::At(s.ops.len() as int, m), Spot::At(s2.ops.len() as int, m2), Spot::At(t.ops.len() as int, n)),
                Effect::Leaves(v, w) => reach_on(h, f, Spot::At(s.ops.len() as int, m), Spot::At(s2.ops.len() as int, m2), Spot::Left(v, w)),
                _ => {},
            }
        }
        n
    } else if (emission::is_arith(kf) || kf == KnownFn::Div) && r == Repr::Double {
        let k = emission::float_arith(kf);
        let op = |x: usize, y: usize| OpView::Binary { op: k, a: x, b: y };
        assert(emission::float_op(env, s, a, b, op) == emission::unboxed_known(env, s, r, kf, a, b));
        assert(forall|x: usize, y: usize| #[trigger] op(x, y) == (OpView::Binary { op: k, a: x, b: y }));
        floats_run(h, f, env, s, a, b, op, false, k, FloatCond::LessThan, m)
    } else if emission::is_comparison(kf) && r == Repr::Bool {
        if emission::repr_of(env, a) == Repr::Long && emission::repr_of(env, b) == Repr::Long {
            let n = op_runs(h, f, s2, OpView::IntTest { cond: emission::int_cond(kf), a: x, b: y }, m2);
            chain(h, f, s, m, s2, m2, t, n);
            n
        } else {
            let c = emission::float_cond(kf);
            let op = |x: usize, y: usize| OpView::FloatTest { cond: c, a: x, b: y };
            assert(emission::float_op(env, s, a, b, op) == emission::unboxed_known(env, s, r, kf, a, b));
            assert(forall|x: usize, y: usize| #[trigger] op(x, y) == (OpView::FloatTest { cond: c, a: x, b: y }));
            floats_run(h, f, env, s, a, b, op, true, Arith::Fadd, c, m)
        }
    } else {
        let n = op_runs(h, f, s2, OpView::IntTest { cond: IntCond::Equal, a: x, b: y }, m2);
        chain(h, f, s, m, s2, m2, t, n);
        n
    }
}

proof fn iconst_runs(h: Host, f: Seq<OpView>, s: PlanView, ty: ClifTy, value: i64, m: Mach) -> (n: Mach)
    ensures
        flows(h, f, s, m, clif::emit(s, OpView::Iconst { ty, value }), n),
        is_part(f, clif::emit(s, OpView::Iconst { ty, value })) ==> clif::next(s) == s.ops.len() && n == execution::put(m, clif::next(s), value as int),
{
    op_runs(h, f, s, OpView::Iconst { ty, value }, m)
}

/// A text is at hand with its length.
proof fn text_runs(h: Host, f: Seq<OpView>, s: PlanView, t: Seq<char>, m: Mach) -> (n: Mach)
    ensures
        flows(h, f, s, m, emission::text_ptr(s, t).0, n),
        is_part(f, emission::text_ptr(s, t).0) ==> {
            let (u, ptr, len) = emission::text_ptr(s, t);
            &&& s.ops.len() <= ptr < u.ops.len()
            &&& s.ops.len() <= len < u.ops.len()
            &&& quiet(m, n, s.ops.len() as int)
            &&& n.vals[ptr] == (h.text)(t)
            &&& n.vals[len] == emission::byte_len(t)
        },
{
    let (s1, data) = emission::req(s, OpView::TextData(t));
    let m1 = op_runs(h, f, s, OpView::TextData(t), m);
    let (s2, ptr) = emission::req(s1, OpView::DataAddr(data));
    let m2 = op_runs(h, f, s1, OpView::DataAddr(data), m1);
    let (s3, len) = emission::iconst64(s2, emission::byte_len(t));
    let n = iconst_runs(h, f, s2, ClifTy::I64, emission::byte_len(t), m2);
    chain(h, f, s, m, s1, m1, s2, m2);
    chain(h, f, s, m, s2, m2, s3, n);
    n
}

proof fn text_const_runs(h: Host, f: Seq<OpView>, s: PlanView, rt: RtFn, t: Seq<char>, m: Mach) -> (n: Mach)
    ensures
        flows(h, f, s, m, emission::text_const(s, rt, t).0, n),
        is_part(f, emission::text_const(s, rt, t).0) ==> {
            let x = emission::text_const(s, rt, t).1;
            let r = (h.rt)(rt, execution::as_text(h, t), m.world);
            still(m, n, s.ops.len() as int) && n.world == r.1 && n.vals[x] == r.0
        },
{
    let (s1, ptr, len) = emission::text_ptr(s, t);
    let m1 = text_runs(h, f, s, t, m);
    let n = call_runs(h, f, s1, rt, seq![ptr, len], m1);
    chain(h, f, s, m, s1, m1, emission::text_const(s, rt, t).0, n);
    if is_part(f, s1) {
        assert(execution::words(m1, seq![ptr, len]) =~= execution::as_text(h, t));
    }
    n
}

/// A namespace and a name are at hand with their lengths.
proof fn qualified_runs(h: Host, f: Seq<OpView>, s: PlanView, ns: Seq<char>, name: Seq<char>, m: Mach) -> (n: Mach)
    ensures
        flows(h, f, s, m, emission::qualified_ptr(s, ns, name).0, n),
        is_part(f, emission::qualified_ptr(s, ns, name).0) ==> {
            let (t, xs) = emission::qualified_ptr(s, ns, name);
            &&& quiet(m, n, s.ops.len() as int)
            &&& are_below(xs, t.ops.len() as int)
            &&& execution::words(n, xs) == execution::as_text(h, ns) + execution::as_text(h, name)
        },
{
    let (s1, d1) = emission::req(s, OpView::TextData(ns));
    let m1 = op_runs(h, f, s, OpView::TextData(ns), m);
    let (s2, d2) = emission::req(s1, OpView::TextData(name));
    let m2 = op_runs(h, f, s1, OpView::TextData(name), m1);
    let (s3, p1) = emission::req(s2, OpView::DataAddr(d1));
    let m3 = op_runs(h, f, s2, OpView::DataAddr(d1), m2);
    let (s4, l1) = emission::iconst64(s3, emission::byte_len(ns));
    let m4 = iconst_runs(h, f, s3, ClifTy::I64, emission::byte_len(ns), m3);
    let (s5, p2) = emission::req(s4, OpView::DataAddr(d2));
    let m5 = op_runs(h, f, s4, OpView::DataAddr(d2), m4);
    let (s6, l2) = emission::iconst64(s5, emission::byte_len(name));
    let n = iconst_runs(h, f, s5, ClifTy::I64, emission::byte_len(name), m5);
    chain(h, f, s, m, s1, m1, s2, m2);
    chain(h, f, s, m, s2, m2, s3, m3);
    chain(h, f, s, m, s3, m3, s4, m4);
    chain(h, f, s, m, s4, m4, s5, m5);
    chain(h, f, s, m, s5, m5, s6, n);
    if is_part(f, s6) {
        let xs = seq![p1, l1, p2, l2];
        assert(f[d1 as int] == OpView::TextData(ns));
        assert(f[d2 as int] == OpView::TextData(name));
        assert(n.vals[p1] == (h.text)(ns) && n.vals[l1] == emission::byte_len(ns));
        assert(n.vals[p2] == (h.text)(name) && n.vals[l2] == emission::byte_len(name));
        assert(execution::words(n, xs) =~= execution::as_text(h, ns) + execution::as_text(h, name));
    }
    n
}

/// Variables are stored, boxed, in the cells of a slot.
proof fn store_runs(h: Host, f: Seq<OpView>, env: EnvView, s: PlanView, vs: Seq<VarId>, slot: usize, i: int, m: Mach) -> (n: Mach)
    requires
        execution::is_fair(h),
        0 <= i <= vs.len(),
    ensures
        flows(h, f, s, m, emission::store_all(env, s, vs, slot, i), n),
        emission::store_all(env, s, vs, slot, i).ops.len() >= s.ops.len() + vs.len() - i,
        is_part(f, emission::store_all(env, s, vs, slot, i)) && vs.len() <= usize::MAX ==> {
            &&& still(m, n, s.ops.len() as int)
            &&& n.world == m.world
            &&& forall|k: int| 0 <= k < i ==> #[trigger] n.cells[(slot, k as usize)] == m.cells[(slot, k as usize)]
            &&& forall|k: int| i <= k < vs.len() ==> #[trigger] n.cells[(slot, k as usize)] == execution::value_of(h, reading(env), m.vars, vs[k])
        },
    decreases vs.len() - i,
{
    if i >= vs.len() {
        reach_self(h, f, Spot::At(s.ops.len() as int, m));
        m
    } else {
        let t = emission::store_all(env, s, vs, slot, i);
        let (s1, value) = emission::use_boxed(env, s, vs[i]);
        let m1 = boxed_runs(h, f, env, s, vs[i], m);
        let op = OpView::StackStore { value, slot, cell: Cell::Word, index: i as usize };
        let s2 = clif::emit(s1, op);
        let m2 = op_runs(h, f, s1, op, m1);
        let n = store_runs(h, f, env, s2, vs, slot, i + 1, m2);
        chain(h, f, s, m, s1, m1, s2, m2);
        chain(h, f, s, m, s2, m2, t, n);
        if is_part(f, t) && vs.len() <= usize::MAX {
            assert(n.cells[(slot, i as usize)] == m2.cells[(slot, i as usize)]);
            assert forall|k: int| 0 <= k < i implies #[trigger] n.cells[(slot, k as usize)] == m.cells[(slot, k as usize)] by {
                assert(n.cells[(slot, k as usize)] == m2.cells[(slot, k as usize)]);
                assert(k as usize != i as usize);
            }
        }
        n
    }
}

/// Variables are spilled, boxed: their row is at hand.
proof fn spill_runs(h: Host, f: Seq<OpView>, env: EnvView, s: PlanView, vs: Seq<VarId>, m: Mach) -> (n: Mach)
    requires
        execution::is_fair(h),
    ensures
        flows(h, f, s, m, emission::spill(env, s, vs).0, n),
        emission::spill(env, s, vs).0.ops.len() >= s.ops.len() + vs.len(),
        is_part(f, emission::spill(env, s, vs).0) ==> {
            let (t, x) = emission::spill(env, s, vs);
            &&& still(m, n, s.ops.len() as int)
            &&& n.world == m.world
            &&& s.ops.len() <= x < t.ops.len()
            &&& n.vals[x] == (h.row)(Cell::Word, execution::values_of(h, reading(env), m.vars, vs))
        },
{
    let op = OpView::StackSlot { cell: Cell::Word, count: vs.len() as usize };
    let (s1, slot) = emission::req(s, op);
    let m1 = op_runs(h, f, s, op, m);
    let s2 = emission::store_all(env, s1, vs, slot, 0);
    let m2 = store_runs(h, f, env, s1, vs, slot, 0, m1);
    let t = emission::spill(env, s, vs).0;
    let n = op_runs(h, f, s2, OpView::StackAddr(slot), m2);
    chain(h, f, s, m, s1, m1, s2, m2);
    chain(h, f, s, m, s2, m2, t, n);
    if is_part(f, t) {
        assert(f[slot as int] == op);
        assert(Seq::new(vs.len() as usize as nat, |i: int| m2.cells[(slot, i as usize)]) =~= execution::values_of(h, reading(env), m.vars, vs)) by {
            assert forall|k: int| 0 <= k < vs.len() implies m2.cells[(slot, k as usize)] == #[trigger] execution::values_of(h, reading(env), m.vars, vs)[k] by {
                assert(m2.cells[(slot, k as usize)] == execution::value_of(h, reading(env), m1.vars, vs[k]));
            }
        }
    }
    n
}

/// Variables are spilled with their number.
proof fn counted_runs(h: Host, f: Seq<OpView>, env: EnvView, s: PlanView, vs: Seq<VarId>, count: i64, m: Mach) -> (n: Mach)
    requires
        execution::is_fair(h),
    ensures
        flows(h, f, s, m, emission::spill_counted(env, s, vs, count).0, n),
        emission::spill_counted(env, s, vs, count).0.ops.len() >= s.ops.len() + vs.len(),
        is_part(f, emission::spill_counted(env, s, vs, count).0) ==> {
            let (t, ptr, c) = emission::spill_counted(env, s, vs, count);
            &&& still(m, n, s.ops.len() as int)
            &&& n.world == m.world
            &&& s.ops.len() <= ptr < t.ops.len()
            &&& s.ops.len() <= c < t.ops.len()
            &&& seq![n.vals[ptr], n.vals[c]] == execution::in_row(h, execution::values_of(h, reading(env), m.vars, vs), count as int)
        },
{
    let t = emission::spill_counted(env, s, vs, count).0;
    if vs.len() == 0 {
        let (s1, null) = emission::null_ptr(s);
        let m1 = iconst_runs(h, f, s, ClifTy::Ptr, 0, m);
        let n = iconst_runs(h, f, s1, ClifTy::I64, 0, m1);
        chain(h, f, s, m, s1, m1, t, n);
        n
    } else {
        let (s1, addr) = emission::spill(env, s, vs);
        let m1 = spill_runs(h, f, env, s, vs, m);
        let n = iconst_runs(h, f, s1, ClifTy::I64, count, m1);
        chain(h, f, s, m, s1, m1, t, n);
        n
    }
}

/// A collection is made of a row of variables.
proof fn alloc_runs(h: Host, f: Seq<OpView>, env: EnvView, s: PlanView, rt: RtFn, vs: Seq<VarId>, m: Mach) -> (n: Mach)
    requires
        execution::is_fair(h),
    ensures
        flows(h, f, s, m, emission::alloc_collection(env, s, rt, vs).0, n),
        is_part(f, emission::alloc_collection(env, s, rt, vs).0) ==> {
            let x = emission::alloc_collection(env, s, rt, vs).1;
            let xs = execution::values_of(h, reading(env), m.vars, vs);
            let r = (h.rt)(rt, execution::in_row(h, xs, if rt == RtFn::AllocMap { vs.len() as int / 2 } else { vs.len() as int }), m.world);
            still(m, n, s.ops.len() as int) && n.world == r.1 && n.vals[x] == r.0
        },
{
    let (t, x) = emission::alloc_collection(env, s, rt, vs);
    let xs = execution::values_of(h, reading(env), m.vars, vs);
    if vs.len() == 0 {
        let (s1, func) = emission::req(s, OpView::ImportRt(rt));
        let m1 = op_runs(h, f, s, OpView::ImportRt(rt), m);
        let (s2, null) = emission::null_ptr(s1);
        let m2 = iconst_runs(h, f, s1, ClifTy::Ptr, 0, m1);
        let (s3, zero) = emission::iconst64(s2, 0);
        let m3 = iconst_runs(h, f, s2, ClifTy::I64, 0, m2);
        let n = op_runs(h, f, s3, OpView::Call { func, args: seq![null, zero] }, m3);
        chain(h, f, s, m, s1, m1, s2, m2);
        chain(h, f, s, m, s2, m2, s3, m3);
        chain(h, f, s, m, s3, m3, t, n);
        if is_part(f, t) {
            assert(f[func as int] == OpView::ImportRt(rt));
            assert(execution::words(m3, seq![null, zero]) =~= seq![0int, 0int]);
        }
        n
    } else {
        let (s1, addr) = emission::spill(env, s, vs);
        let m1 = spill_runs(h, f, env, s, vs, m);
        let (s2, count) = emission::iconst64(s1, vs.len() as usize as i64);
        let m2 = iconst_runs(h, f, s1, ClifTy::I64, vs.len() as usize as i64, m1);
        let (s3, func) = emission::req(s2, OpView::ImportRt(rt));
        let m3 = op_runs(h, f, s2, OpView::ImportRt(rt), m2);
        chain(h, f, s, m, s1, m1, s2, m2);
        chain(h, f, s, m, s2, m2, s3, m3);
        if rt == RtFn::AllocMap {
            let half = (vs.len() as usize / 2) as i64;
            let (s4, pairs) = emission::iconst64(s3, half);
            let m4 = iconst_runs(h, f, s3, ClifTy::I64, half, m3);
            let n = op_runs(h, f, s4, OpView::Call { func, args: seq![addr, pairs] }, m4);
            chain(h, f, s, m, s3, m3, s4, m4);
            chain(h, f, s, m, s4, m4, t, n);
            if is_part(f, t) {
                assert(f[func as int] == OpView::ImportRt(rt));
                assert(execution::words(m4, seq![addr, pairs]) =~= seq![(h.row)(Cell::Word, xs), vs.len() as int / 2]);
            }
            n
        } else {
            let n = op_runs(h, f, s3, OpView::Call { func, args: seq![addr, count] }, m3);
            chain(h, f, s, m, s3, m3, t, n);
            if is_part(f, t) {
                assert(f[func as int] == OpView::ImportRt(rt));
                assert(execution::words(m3, seq![addr, count]) =~= seq![(h.row)(Cell::Word, xs), vs.len() as int]);
            }
            n
        }
    }
}

proof fn given_one(f: Seq<OpView>, b: usize, args: Seq<int>, vals: Map<usize, int>, at: int, n: int)
    requires
        0 <= n <= f.len() <= usize::MAX,
        0 <= at < f.len(),
        execution::is_param_of(f[at], b),
        forall|p: int| 0 <= p < f.len() && p != at ==> !execution::is_param_of(#[trigger] f[p], b),
    ensures
        n <= at ==> execution::given(f, b, args, vals, n) == vals && execution::params_before(f, b, n) == 0,
        n > at ==> execution::given(f, b, args, vals, n) == vals.insert(at as usize, args[0]),
    decreases n,
{
    if n > 0 {
        given_one(f, b, args, vals, at, n - 1);
        if n - 1 != at {
            assert(!execution::is_param_of(f[n - 1], b));
        }
    }
}

/// The head of a cache: it goes on to fill it where nothing is stored, and to the end with what is
/// otherwise.
proof fn head_runs(h: Host, f: Seq<OpView>, base: int, s: PlanView, m: Mach) -> (n: Mach)
    ensures
        grows(s, emission::cache_head(s).0),
        ({
            let (t, slot, merge, param) = emission::cache_head(s);
            let cell = (h.cell)(s.ops.len() as usize);
            let stored = (h.stored)(cell, m.world);
            &&& t.ops.len() == s.ops.len() + 8
            &&& is_fine(f, base, s, t) ==> {
                &&& slot == s.ops.len() + 1
                &&& merge == s.ops.len() + 4
                &&& param == s.ops.len() + 5
                &&& f[param as int] == (OpView::AppendParam { block: merge, ty: ClifTy::Ptr })
                &&& quiet(m, n, s.ops.len() as int)
                &&& n.vals[slot] == cell
                &&& stored == 0 ==> execution::reaches(h, f, Spot::At(s.ops.len() as int, m), Spot::At(t.ops.len() as int, n))
                &&& stored != 0 ==> execution::reaches(h, f, Spot::At(s.ops.len() as int, m), Spot::To(merge, seq![stored], n))
                &&& forall|q: int| s.ops.len() <= q < t.ops.len() ==> #[trigger] f[q] != OpView::SwitchTo(merge)
            }
        }),
{
    let (t, slot, merge, param) = emission::cache_head(s);
    let at = s.ops.len() as int;
    let (s1, data) = emission::req(s, OpView::ZeroData);
    let m1 = op_runs(h, f, s, OpView::ZeroData, m);
    let (s2, slot_) = emission::req(s1, OpView::DataAddr(data));
    let m2 = op_runs(h, f, s1, OpView::DataAddr(data), m1);
    let (s3, cached) = emission::req(s2, OpView::LoadPtr(slot));
    let m3 = op_runs(h, f, s2, OpView::LoadPtr(slot), m2);
    let (s4, miss) = emission::req(s3, OpView::CreateBlock);
    let m4 = op_runs(h, f, s3, OpView::CreateBlock, m3);
    let (s5, merge_) = emission::req(s4, OpView::CreateBlock);
    let m5 = op_runs(h, f, s4, OpView::CreateBlock, m4);
    let param_op = OpView::AppendParam { block: merge, ty: ClifTy::Ptr };
    let s6 = clif::emit(s5, param_op);
    let brif = OpView::Brif { cond: cached, then_block: merge, then_args: seq![cached], else_block: miss, else_args: Seq::empty() };
    let s7 = clif::emit(s6, brif);
    assert(t == clif::emit(s7, OpView::SwitchTo(miss)));
    chain(h, f, s, m, s1, m1, s2, m2);
    chain(h, f, s, m, s2, m2, s3, m3);
    chain(h, f, s, m, s3, m3, s4, m4);
    chain(h, f, s, m, s4, m4, s5, m5);
    assert(t.ops[at] == OpView::ZeroData && t.ops[at + 1] == OpView::DataAddr(data) && t.ops[at + 2] == OpView::LoadPtr(slot));
    assert(t.ops[at + 3] == OpView::CreateBlock && t.ops[at + 4] == OpView::CreateBlock && t.ops[at + 5] == param_op);
    assert(t.ops[at + 6] == brif && t.ops[at + 7] == OpView::SwitchTo(miss));
    assert forall|p: int| 0 <= p < at implies #[trigger] t.ops[p] == s.ops[p] by {}
    if t.ops.len() <= usize::MAX {
        assert forall|p: int| at <= p < t.ops.len() implies is_inward(#[trigger] t.ops[p], at, p) by {
            assert(p == at || p == at + 1 || p == at + 2 || p == at + 3 || p == at + 4 || p == at + 5 || p == at + 6 || p == at + 7);
        }
    }
    if is_fine(f, base, s, t) {
        assert forall|p: int| 0 <= p < t.ops.len() implies #[trigger] f[p] == t.ops[p] by {}
        assert(is_part(f, s5)) by {
            assert forall|p: int| 0 <= p < s5.ops.len() implies #[trigger] f[p] == s5.ops[p] by {
                assert(t.ops[p] == s5.ops[p]);
            }
        }
        part_before(f, s, t);
        part_before(f, s1, s5);
        part_before(f, s2, s5);
        part_before(f, s3, s5);
        assert(f[data as int] == OpView::ZeroData);
        let stored = (h.stored)((h.cell)(data), m.world);
        assert(m5.vals[cached] == stored);
        assert(f[at + 5] == param_op && f[at + 6] == brif && f[at + 7] == OpView::SwitchTo(miss));
        reach_one(h, f, Spot::At(at + 5, m5));
        reach_on(h, f, Spot::At(at, m), Spot::At(at + 5, m5), Spot::At(at + 6, m5));
        reach_one(h, f, Spot::At(at + 6, m5));
        assert forall|q: int| at <= q < t.ops.len() implies #[trigger] f[q] != OpView::SwitchTo(merge) by {
            assert(q == at || q == at + 1 || q == at + 2 || q == at + 3 || q == at + 4 || q == at + 5 || q == at + 6 || q == at + 7);
            assert(f[q] == t.ops[q]);
        }
        let none = execution::words(m5, Seq::empty());
        if stored == 0 {
            assert forall|q: int| at <= q < at + 7 implies #[trigger] f[q] != OpView::SwitchTo(miss) by {
                assert(q == at || q == at + 1 || q == at + 2 || q == at + 3 || q == at + 4 || q == at + 5 || q == at + 6);
                assert(f[q] == t.ops[q]);
            }
            assert(f[miss + 1] == OpView::CreateBlock);
            inner_landing(h, f, base, s, miss, at + 7, none, m5);
            reach_on(h, f, Spot::At(at, m), Spot::At(at + 6, m5), Spot::To(miss, none, m5));
            reach_on(h, f, Spot::At(at, m), Spot::To(miss, none, m5), Spot::At(at + 8, m5));
        } else {
            assert(execution::words(m5, seq![cached]) =~= seq![stored]);
            reach_on(h, f, Spot::At(at, m), Spot::At(at + 6, m5), Spot::To(merge, seq![stored], m5));
        }
    }
    m5
}

/// A cache: what is stored in its cell where something is, and what filling it gives otherwise.
proof fn cache_runs(h: Host, f: Seq<OpView>, base: int, s: PlanView, m: Mach, m1: Mach, u: PlanView, filled: usize, m2: Mach) -> (n: Mach)
    requires
        ({
            let (s1, slot, merge, param) = emission::cache_head(s);
            flows(h, f, s1, m1, u, m2)
        }),

    ensures
        ({
            let (s1, slot, merge, param) = emission::cache_head(s);
            let t = emission::cache_tail(u, merge, filled);
            let stored = (h.stored)((h.cell)(s.ops.len() as usize), m.world);
            let here = Spot::At(s.ops.len() as int, m);
            &&& grows(s, t)
            &&& is_fine(f, base, s, t) && stored == 0 && execution::reaches(h, f, here, Spot::At(s1.ops.len() as int, m1)) ==> {
                &&& execution::reaches(h, f, here, Spot::At(t.ops.len() as int, n))
                &&& n == execution::put(m2, param, m2.vals[filled])
            }
            &&& is_fine(f, base, s, t) && stored != 0 && execution::reaches(h, f, here, Spot::To(merge, seq![stored], m1)) ==> {
                &&& execution::reaches(h, f, here, Spot::At(t.ops.len() as int, n))
                &&& n == execution::put(m1, param, stored)
            }
        }),
{
    let (s1, slot, merge, param) = emission::cache_head(s);
    let jump = OpView::Jump { block: merge, args: seq![filled] };
    let u1 = clif::emit(u, jump);
    let t = emission::cache_tail(u, merge, filled);
    let at = s.ops.len() as int;
    let stored = (h.stored)((h.cell)(s.ops.len() as usize), m.world);
    let mh = head_runs(h, f, base, s, m);
    grow_on(s, s1, u);
    assert(t.ops[u.ops.len() as int] == jump && t.ops[u.ops.len() as int + 1] == OpView::SwitchTo(merge));
    assert forall|p: int| 0 <= p < u.ops.len() implies #[trigger] t.ops[p] == u.ops[p] by {}
    assert forall|p: int| 0 <= p < at implies #[trigger] t.ops[p] == s.ops[p] by {
        assert(u.ops[p] == s.ops[p]);
    }
    if t.ops.len() <= usize::MAX {
        assert forall|p: int| at <= p < t.ops.len() implies is_inward(#[trigger] t.ops[p], at, p) by {
            if p < u.ops.len() {
                assert(t.ops[p] == u.ops[p]);
                assert(is_inward(u.ops[p], at, p));
            }
        }
    }
    let n = if stored == 0 { execution::put(m2, param, m2.vals[filled]) } else { execution::put(m1, param, stored) };
    if is_fine(f, base, s, t) {
        let end = u.ops.len() as int;
        assert(is_part(f, u)) by {
            assert forall|p: int| 0 <= p < u.ops.len() implies #[trigger] f[p] == u.ops[p] by {
                assert(t.ops[p] == u.ops[p]);
            }
        }
        part_before(f, s1, u);
        part_before(f, s, u);
        assert(f[end] == jump && f[end + 1] == OpView::SwitchTo(merge));
        assert forall|q: int| 0 <= q < end + 1 implies #[trigger] f[q] != OpView::SwitchTo(merge) by {
            if q < at {
                assert(f[q] == s.ops[q]);
            } else if q < s1.ops.len() {
            } else if q < end {
                assert(f[q] == u.ops[q]);
                assert(is_inward(u.ops[q], s1.ops.len() as int, q));
            }
        }
        landing_at(f, merge, 0, end + 1);
        assert forall|p: int| 0 <= p < f.len() && p != param implies !execution::is_param_of(#[trigger] f[p], merge) by {
        }
        if stored == 0 && execution::reaches(h, f, Spot::At(at, m), Spot::At(s1.ops.len() as int, m1)) {
            reach_on(h, f, Spot::At(at, m), Spot::At(s1.ops.len() as int, m1), Spot::At(end, m2));
            reach_one(h, f, Spot::At(end, m2));
            let ws = execution::words(m2, seq![filled]);
            assert(ws[0] == m2.vals[filled]);
            given_one(f, merge, ws, m2.vals, param as int, f.len() as int);
            reach_one(h, f, Spot::To(merge, ws, m2));
            reach_on(h, f, Spot::At(at, m), Spot::At(end, m2), Spot::To(merge, ws, m2));
            reach_on(h, f, Spot::At(at, m), Spot::To(merge, ws, m2), Spot::At(end + 2, n));
        }
        if stored != 0 && execution::reaches(h, f, Spot::At(at, m), Spot::To(merge, seq![stored], m1)) {
            given_one(f, merge, seq![stored], m1.vals, param as int, f.len() as int);
            reach_one(h, f, Spot::To(merge, seq![stored], m1));
            reach_on(h, f, Spot::At(at, m), Spot::To(merge, seq![stored], m1), Spot::At(end + 2, n));
        }
    }
    n
}

/// A keyword: the pointer that the cell of its site stores, and what filling the cell gives where
/// there is none.
proof fn keyword_runs(h: Host, f: Seq<OpView>, base: int, s: PlanView, t: Seq<char>, m: Mach) -> (n: Mach)
    ensures
        ({
            let (u, x) = emission::keyword_ic(s, t);
            let cell = (h.cell)(s.ops.len() as usize);
            let stored = (h.stored)(cell, m.world);
            gets(h, f, base, s, m, u, x, n, if stored != 0 { Effect::Gives(stored, m.world) } else { execution::gives((h.rt)(RtFn::KwIcFill, execution::as_text(h, t).push(cell), m.world)) })
        }),
{
    let (s1, slot, merge, param) = emission::cache_head(s);
    let m1 = head_runs(h, f, base, s, m);
    let (s2, ptr, len) = emission::text_ptr(s1, t);
    let m2 = text_runs(h, f, s1, t, m1);
    let (s3, filled) = emission::call_rt(s2, RtFn::KwIcFill, seq![ptr, len, slot]);
    let m3 = call_runs(h, f, s2, RtFn::KwIcFill, seq![ptr, len, slot], m2);
    chain(h, f, s1, m1, s2, m2, s3, m3);
    let u = emission::cache_tail(s3, merge, filled);
    let n = cache_runs(h, f, base, s, m, m1, s3, filled, m3);
    if is_fine(f, base, s, u) {
        assert(is_part(f, s3)) by {
            assert forall|p: int| 0 <= p < s3.ops.len() implies #[trigger] f[p] == s3.ops[p] by {
                assert(u.ops[p] == s3.ops[p]);
            }
        }
        part_before(f, s2, s3);
        part_before(f, s1, s2);
        assert(m2.vals[slot] == m1.vals[slot]);
        assert(execution::words(m2, seq![ptr, len, slot]) =~= execution::as_text(h, t).push((h.cell)(s.ops.len() as usize)));
    }
    n
}

/// A pinned global, through a cache in the same way.
proof fn pinned_runs(h: Host, f: Seq<OpView>, base: int, s: PlanView, ns: Seq<char>, name: Seq<char>, m: Mach) -> (n: Mach)
    ensures
        ({
            let (u, x) = emission::versioned_ic(s, ns, name);
            let cell = (h.cell)(s.ops.len() as usize);
            let stored = (h.stored)(cell, m.world);
            gets(h, f, base, s, m, u, x, n, if stored != 0 { Effect::Gives(stored, m.world) } else { execution::gives((h.rt)(RtFn::LoadGlobalVersionedIc, (execution::as_text(h, ns) + execution::as_text(h, name)).push(cell), m.world)) })
        }),
{
    let (s1, slot, merge, param) = emission::cache_head(s);
    let m1 = head_runs(h, f, base, s, m);
    let (s2, p1, l1) = emission::text_ptr(s1, ns);
    let m2 = text_runs(h, f, s1, ns, m1);
    let (s3, p2, l2) = emission::text_ptr(s2, name);
    let m3 = text_runs(h, f, s2, name, m2);
    let args = seq![p1, l1, p2, l2, slot];
    let (s4, filled) = emission::call_rt(s3, RtFn::LoadGlobalVersionedIc, args);
    let m4 = call_runs(h, f, s3, RtFn::LoadGlobalVersionedIc, args, m3);
    chain(h, f, s1, m1, s2, m2, s3, m3);
    chain(h, f, s1, m1, s3, m3, s4, m4);
    let u = emission::cache_tail(s4, merge, filled);
    let n = cache_runs(h, f, base, s, m, m1, s4, filled, m4);
    if is_fine(f, base, s, u) {
        assert(is_part(f, s4)) by {
            assert forall|p: int| 0 <= p < s4.ops.len() implies #[trigger] f[p] == s4.ops[p] by {
                assert(u.ops[p] == s4.ops[p]);
            }
        }
        part_before(f, s3, s4);
        part_before(f, s2, s3);
        part_before(f, s1, s2);
        assert(m3.vals[slot] == m1.vals[slot]);
        assert(m3.vals[p1] == m2.vals[p1] && m3.vals[l1] == m2.vals[l1]);
        assert(execution::words(m3, args) =~= (execution::as_text(h, ns) + execution::as_text(h, name)).push((h.cell)(s.ops.len() as usize)));
    }
    n
}

/// A keyword literal is the pointer that the cell of its site stores; where that stores none, it is
/// what the bridge gives for the keyword's text and the cell.
pub proof fn keywords_come_from_their_cells(h: Host, f: Seq<OpView>, base: int, env: EnvView, s: PlanView, dst: VarId, t: String, m: Mach) -> (n: Mach)
    ensures
        ({
            let (u, x) = emission::constant(env, s, dst, Const::Keyword(t));
            let cell = (h.cell)(s.ops.len() as usize);
            let stored = (h.stored)(cell, m.world);
            let filled = (h.rt)(RtFn::KwIcFill, seq![(h.text)(t@), emission::byte_len(t@) as int, cell], m.world);
            &&& stored != 0 ==> gets(h, f, base, s, m, u, x, n, Effect::Gives(stored, m.world))
            &&& stored == 0 ==> gets(h, f, base, s, m, u, x, n, Effect::Gives(filled.0, filled.1))
        }),
{
    let cell = (h.cell)(s.ops.len() as usize);
    assert(execution::as_text(h, t@).push(cell) =~= seq![(h.text)(t@), emission::byte_len(t@) as int, cell]);
    keyword_runs(h, f, base, s, t@, m)
}

/// A pinned global is the pointer that the cell of its site stores; where that stores none, it is
/// what the bridge gives for the namespace, the name and the cell.
pub proof fn pinned_globals_come_from_their_cells(h: Host, f: Seq<OpView>, base: int, env: EnvView, s: PlanView, ns: Seq<char>, name: Seq<char>, m: Mach) -> (n: Mach)
    requires
        env.pins.contains(name),
    ensures
        ({
            let (u, x) = emission::load_global(env, s, ns, name);
            let cell = (h.cell)(s.ops.len() as usize);
            let stored = (h.stored)(cell, m.world);
            let texts = seq![(h.text)(ns), emission::byte_len(ns) as int, (h.text)(name), emission::byte_len(name) as int];
            let filled = (h.rt)(RtFn::LoadGlobalVersionedIc, texts.push(cell), m.world);
            &&& stored != 0 ==> gets(h, f, base, s, m, u, x, n, Effect::Gives(stored, m.world))
            &&& stored == 0 ==> gets(h, f, base, s, m, u, x, n, Effect::Gives(filled.0, filled.1))
        }),
{
    let texts = seq![(h.text)(ns), emission::byte_len(ns) as int, (h.text)(name), emission::byte_len(name) as int];
    assert(execution::as_text(h, ns) + execution::as_text(h, name) =~= texts);
    pinned_runs(h, f, base, s, ns, name, m)
}

proof fn boxed_const_runs(h: Host, f: Seq<OpView>, base: int, s: PlanView, c: Const, m: Mach) -> (n: Mach)
    requires
        execution::is_fair(h),
    ensures
        ({
            let (t, x) = emission::boxed_const(s, c);
            gets(h, f, base, s, m, t, x, n, execution::literal(h, Repr::Boxed, c, m.world))
        }),
{
    let (t, x) = emission::boxed_const(s, c);
    assert(execution::words(m, Seq::empty()) =~= Seq::<int>::empty());
    match c {
        Const::Nil => call_runs(h, f, s, RtFn::ConstNil, Seq::empty(), m),
        Const::Bool(b) => call_runs(h, f, s, if b { RtFn::ConstTrue } else { RtFn::ConstFalse }, Seq::empty(), m),
        Const::Long(k) => {
            let (s1, func) = emission::req(s, OpView::ImportRt(RtFn::ConstLong));
            let m1 = op_runs(h, f, s, OpView::ImportRt(RtFn::ConstLong), m);
            let (s2, arg) = emission::iconst64(s1, k);
            let m2 = iconst_runs(h, f, s1, ClifTy::I64, k, m1);
            let n = op_runs(h, f, s2, OpView::Call { func, args: seq![arg] }, m2);
            chain(h, f, s, m, s1, m1, s2, m2);
            chain(h, f, s, m, s2, m2, t, n);
            if is_part(f, t) {
                assert(f[func as int] == OpView::ImportRt(RtFn::ConstLong));
                assert(execution::words(m2, seq![arg]) =~= seq![k as int]);
            }
            n
        },
        Const::Double(bits) => {
            let (s1, func) = emission::req(s, OpView::ImportRt(RtFn::ConstDouble));
            let m1 = op_runs(h, f, s, OpView::ImportRt(RtFn::ConstDouble), m);
            let (s2, arg) = emission::req(s1, OpView::F64const(bits));
            let m2 = op_runs(h, f, s1, OpView::F64const(bits), m1);
            let n = op_runs(h, f, s2, OpView::Call { func, args: seq![arg] }, m2);
            chain(h, f, s, m, s1, m1, s2, m2);
            chain(h, f, s, m, s2, m2, t, n);
            if is_part(f, t) {
                assert(f[func as int] == OpView::ImportRt(RtFn::ConstDouble));
                assert(execution::words(m2, seq![arg]) =~= seq![bits as int]);
            }
            n
        },
        Const::Char(ch) => {
            let (s1, func) = emission::req(s, OpView::ImportRt(RtFn::ConstChar));
            let m1 = op_runs(h, f, s, OpView::ImportRt(RtFn::ConstChar), m);
            let (s2, arg) = emission::req(s1, OpView::Iconst { ty: ClifTy::I32, value: (ch as u32) as i64 });
            let m2 = iconst_runs(h, f, s1, ClifTy::I32, (ch as u32) as i64, m1);
            let n = op_runs(h, f, s2, OpView::Call { func, args: seq![arg] }, m2);
            chain(h, f, s, m, s1, m1, s2, m2);
            chain(h, f, s, m, s2, m2, t, n);
            if is_part(f, t) {
                assert(f[func as int] == OpView::ImportRt(RtFn::ConstChar));
                assert(execution::words(m2, seq![arg]) =~= seq![(ch as u32) as int]);
            }
            n
        },
        Const::Str(text) => text_const_runs(h, f, s, RtFn::ConstString, text@, m),
        Const::Keyword(text) => keyword_runs(h, f, base, s, text@, m),
        Const::Symbol(text) => text_const_runs(h, f, s, RtFn::ConstSymbol, text@, m),
    }
}

proof fn constant_runs(h: Host, f: Seq<OpView>, base: int, env: EnvView, s: PlanView, d: VarId, c: Const, m: Mach) -> (n: Mach)
    requires
        execution::is_fair(h),
    ensures
        ({
            let (t, x) = emission::constant(env, s, d, c);
            gets(h, f, base, s, m, t, x, n, execution::literal(h, execution::kept_as(env.reprs, d), c, m.world))
        }),
{
    match (emission::repr_of(env, d), c) {
        (Repr::Long, Const::Long(k)) => iconst_runs(h, f, s, ClifTy::I64, k, m),
        (Repr::Double, Const::Double(bits)) => op_runs(h, f, s, OpView::F64const(bits), m),
        (Repr::Bool, Const::Bool(b)) => iconst_runs(h, f, s, ClifTy::I8, if b { 1 } else { 0 }, m),
        _ => boxed_const_runs(h, f, base, s, c, m),
    }
}

/// A bridge function is called with a namespace and a name.
proof fn named_runs(h: Host, f: Seq<OpView>, s: PlanView, rt: RtFn, ns: Seq<char>, name: Seq<char>, m: Mach) -> (n: Mach)
    ensures
        ({
            let (s1, args) = emission::qualified_ptr(s, ns, name);
            let (t, x) = emission::call_rt(s1, rt, args);
            let r = (h.rt)(rt, execution::as_text(h, ns) + execution::as_text(h, name), m.world);
            &&& flows(h, f, s, m, t, n)
            &&& is_part(f, t) ==> n.vars == m.vars && n.params == m.params && n.world == r.1 && n.vals[x] == r.0
        }),
{
    let (s1, args) = emission::qualified_ptr(s, ns, name);
    let m1 = qualified_runs(h, f, s, ns, name, m);
    let n = call_runs(h, f, s1, rt, args, m1);
    chain(h, f, s, m, s1, m1, emission::call_rt(s1, rt, args).0, n);
    n
}

proof fn def_var_runs(h: Host, f: Seq<OpView>, env: EnvView, s: PlanView, ns: Seq<char>, name: Seq<char>, val: VarId, m: Mach) -> (n: Mach)
    requires
        execution::is_fair(h),
    ensures
        ({
            let (t, x) = emission::def_var(env, s, ns, name, val);
            let r = (h.rt)(RtFn::DefVar, execution::as_text(h, ns) + execution::as_text(h, name) + seq![execution::value_of(h, reading(env), m.vars, val)], m.world);
            &&& flows(h, f, s, m, t, n)
            &&& is_part(f, t) ==> n.vars == m.vars && n.params == m.params && n.world == r.1 && n.vals[x] == r.0
        }),
{
    let (s1, args) = emission::qualified_ptr(s, ns, name);
    let m1 = qualified_runs(h, f, s, ns, name, m);
    let (s2, x) = emission::use_boxed(env, s1, val);
    let m2 = boxed_runs(h, f, env, s1, val, m1);
    let t = emission::def_var(env, s, ns, name, val).0;
    let n = call_runs(h, f, s2, RtFn::DefVar, args.push(x), m2);
    chain(h, f, s, m, s1, m1, s2, m2);
    chain(h, f, s, m, s2, m2, t, n);
    if is_part(f, t) {
        assert forall|k: int| 0 <= k < args.len() implies m2.vals[#[trigger] args[k]] == execution::words(m1, args)[k] by {}
        assert(execution::words(m2, args.push(x)) =~= execution::as_text(h, ns) + execution::as_text(h, name) + seq![execution::value_of(h, reading(env), m.vars, val)]);
    }
    n
}

/// A value is called.
proof fn unknown_runs(h: Host, f: Seq<OpView>, env: EnvView, s: PlanView, callee: VarId, args: Seq<VarId>, m: Mach) -> (n: Mach)
    requires
        execution::is_fair(h),
    ensures
        ({
            let (t, x) = emission::unknown_call(env, s, callee, args);
            let e = reading(env);
            let r = (h.rt)(RtFn::Call, seq![execution::value_of(h, e, m.vars, callee)] + execution::in_row(h, execution::values_of(h, e, m.vars, args), args.len() as int), m.world);
            &&& flows(h, f, s, m, t, n)
            &&& is_part(f, t) ==> n.vars == m.vars && n.params == m.params && n.world == r.1 && n.vals[x] == r.0
        }),
{
    let (t, x) = emission::unknown_call(env, s, callee, args);
    let e = reading(env);
    let v = execution::value_of(h, e, m.vars, callee);
    let (s1, g) = emission::use_boxed(env, s, callee);
    let m1 = boxed_runs(h, f, env, s, callee, m);
    if args.len() == 0 {
        let (s2, null) = emission::null_ptr(s1);
        let m2 = iconst_runs(h, f, s1, ClifTy::Ptr, 0, m1);
        let (s3, zero) = emission::iconst64(s2, 0);
        let m3 = iconst_runs(h, f, s2, ClifTy::I64, 0, m2);
        let n = call_runs(h, f, s3, RtFn::Call, seq![g, null, zero], m3);
        chain(h, f, s, m, s1, m1, s2, m2);
        chain(h, f, s, m, s2, m2, s3, m3);
        chain(h, f, s, m, s3, m3, t, n);
        if is_part(f, t) {
            assert(execution::words(m3, seq![g, null, zero]) =~= seq![v] + execution::in_row(h, execution::values_of(h, e, m.vars, args), args.len() as int));
        }
        n
    } else {
        let (s2, addr) = emission::spill(env, s1, args);
        let m2 = spill_runs(h, f, env, s1, args, m1);
        let (s3, count) = emission::iconst64(s2, args.len() as usize as i64);
        let m3 = iconst_runs(h, f, s2, ClifTy::I64, args.len() as usize as i64, m2);
        let (s4, data) = emission::req(s3, OpView::ZeroData);
        let m4 = op_runs(h, f, s3, OpView::ZeroData, m3);
        let (s5, slot) = emission::req(s4, OpView::DataAddr(data));
        let m5 = op_runs(h, f, s4, OpView::DataAddr(data), m4);
        let n = call_runs(h, f, s5, RtFn::CallIc, seq![g, addr, count, slot], m5);
        chain(h, f, s, m, s1, m1, s2, m2);
        chain(h, f, s, m, s2, m2, s3, m3);
        chain(h, f, s, m, s3, m3, s4, m4);
        chain(h, f, s, m, s4, m4, s5, m5);
        chain(h, f, s, m, s5, m5, t, n);
        if is_part(f, t) {
            let ws = execution::words(m5, seq![g, addr, count, slot]);
            assert(m5.vals[g] == v);
            assert(m5.vals[addr] == m2.vals[addr]);
            assert(ws.drop_last() =~= seq![v] + execution::in_row(h, execution::values_of(h, e, m.vars, args), args.len() as int));
        }
        n
    }
}

/// A declared function is called.
proof fn direct_runs(h: Host, f: Seq<OpView>, env: EnvView, s: PlanView, what: Seq<char>, name: Seq<char>, args: Seq<VarId>, extra: Seq<usize>, m: Mach) -> (n: Mach)
    requires
        execution::is_fair(h),
        emission::direct_call(env, s, what, name, args, extra) is Ok,
    ensures
        ({
            let (t, x) = emission::direct_call(env, s, what, name, args, extra)->Ok_0;
            let r = (h.user)(name, execution::values_of(h, reading(env), m.vars, args) + execution::words(m, extra), m.world);
            &&& flows(h, f, s, m, t, n)
            &&& is_part(f, t) && are_below(extra, s.ops.len() as int) ==> n.vars == m.vars && n.params == m.params && n.world == r.1 && n.vals[x] == r.0
        }),
{
    let t = emission::direct_call(env, s, what, name, args, extra)->Ok_0.0;
    let none: Seq<usize> = Seq::empty();
    let (s1, func) = emission::req(s, OpView::ImportUser(name));
    let m1 = op_runs(h, f, s, OpView::ImportUser(name), m);
    let (s2, xs) = emission::use_all_boxed(env, s1, args, 0, none);
    let m2 = all_boxed_run(h, f, env, s1, args, 0, none, m1);
    let n = op_runs(h, f, s2, OpView::Call { func, args: xs + extra }, m2);
    chain(h, f, s, m, s1, m1, s2, m2);
    chain(h, f, s, m, s2, m2, t, n);
    if is_part(f, t) && are_below(extra, s.ops.len() as int) {
        assert(f[func as int] == OpView::ImportUser(name));
        assert(args.skip(0) =~= args);
        assert(execution::words(m2, xs) =~= execution::values_of(h, reading(env), m.vars, args));
        assert forall|k: int| 0 <= k < extra.len() implies m2.vals[#[trigger] extra[k]] == m.vals[extra[k]] by {}
        assert(execution::words(m2, xs + extra) =~= execution::words(m2, xs) + execution::words(m, extra));
    }
    n
}

proof fn func_runs(h: Host, f: Seq<OpView>, env: EnvView, s: PlanView, name: Seq<char>, m: Mach) -> (n: Mach)
    requires
        emission::func_ptr(env, s, name) is Ok,
    ensures
        ({
            let (t, x) = emission::func_ptr(env, s, name)->Ok_0;
            &&& flows(h, f, s, m, t, n)
            &&& is_part(f, t) ==> s.ops.len() <= x < t.ops.len() && n == execution::put(m, x, (h.code)(name))
        }),
{
    let (s1, func) = emission::req(s, OpView::ImportUser(name));
    let m1 = op_runs(h, f, s, OpView::ImportUser(name), m);
    let n = op_runs(h, f, s1, OpView::FuncAddr(func), m1);
    let t = emission::func_ptr(env, s, name)->Ok_0.0;
    chain(h, f, s, m, s1, m1, t, n);
    if is_part(f, t) {
        assert(f[func as int] == OpView::ImportUser(name));
    }
    n
}

/// Words are in the cells of a slot.
spec fn are_stored(m: Mach, slot: usize, ws: Seq<int>) -> bool {
    forall|k: int| 0 <= k < ws.len() ==> #[trigger] m.cells[(slot, k as usize)] == ws[k]
}

spec fn codes_of(h: Host, names: Seq<String>) -> Seq<int> {
    Seq::new(names.len(), |i: int| (h.code)(names[i]@))
}

spec fn counts_of(counts: Seq<usize>) -> Seq<int> {
    Seq::new(counts.len(), |i: int| counts[i] as i64 as int)
}

spec fn flags_of(flags: Seq<bool>) -> Seq<int> {
    Seq::new(flags.len(), |i: int| execution::flag(flags[i]))
}

/// A word is stored in a cell, behind those that are.
proof fn cell_runs(h: Host, f: Seq<OpView>, s: PlanView, value: usize, slot: usize, cell: Cell, i: int, ws: Seq<int>, m: Mach) -> (n: Mach)
    requires
        0 <= i < ws.len(),
    ensures
        ({
            let op = OpView::StackStore { value, slot, cell, index: i as usize };
            let t = clif::emit(s, op);
            &&& flows(h, f, s, m, t, n)
            &&& is_part(f, t) && ws.len() <= usize::MAX && m.vals[value] == ws[i] && are_stored(m, slot, ws.take(i)) ==> {
                &&& are_stored(n, slot, ws.take(i + 1))
                &&& n.vals == m.vals && n.vars == m.vars && n.params == m.params && n.world == m.world
            }
        }),
{
    let op = OpView::StackStore { value, slot, cell, index: i as usize };
    let n = op_runs(h, f, s, op, m);
    let t = clif::emit(s, op);
    if is_part(f, t) && ws.len() <= usize::MAX && m.vals[value] == ws[i] && are_stored(m, slot, ws.take(i)) {
        assert forall|k: int| 0 <= k < i + 1 implies #[trigger] n.cells[(slot, k as usize)] == ws.take(i + 1)[k] by {
            if k < i {
                assert(m.cells[(slot, k as usize)] == ws.take(i)[k]);
                assert(k as usize != i as usize);
            }
        }
    }
    n
}

proof fn funcs_run(h: Host, f: Seq<OpView>, env: EnvView, s: PlanView, names: Seq<String>, slot: usize, i: int, m: Mach) -> (n: Mach)
    requires
        0 <= i <= names.len(),
        emission::store_funcs(env, s, names, slot, i) is Ok,
    ensures
        ({
            let t = emission::store_funcs(env, s, names, slot, i)->Ok_0;
            &&& flows(h, f, s, m, t, n)
            &&& t.ops.len() >= s.ops.len() + names.len() - i
            &&& is_part(f, t) && names.len() <= usize::MAX && are_stored(m, slot, codes_of(h, names).take(i)) ==> still(m, n, s.ops.len() as int) && n.world == m.world && are_stored(n, slot, codes_of(h, names))
        }),
    decreases names.len() - i,
{
    let ws = codes_of(h, names);
    reach_self(h, f, Spot::At(s.ops.len() as int, m));
    if i >= names.len() {
        assert(ws.take(i) =~= ws);
        m
    } else {
        let t = emission::store_funcs(env, s, names, slot, i)->Ok_0;
        let (s1, value) = emission::func_ptr(env, s, names[i]@)->Ok_0;
        let m1 = func_runs(h, f, env, s, names[i]@, m);
        let s2 = clif::emit(s1, OpView::StackStore { value, slot, cell: Cell::Word, index: i as usize });
        let m2 = cell_runs(h, f, s1, value, slot, Cell::Word, i, ws, m1);
        let n = funcs_run(h, f, env, s2, names, slot, i + 1, m2);
        chain(h, f, s, m, s1, m1, s2, m2);
        chain(h, f, s, m, s2, m2, t, n);
        n
    }
}

proof fn counts_run(h: Host, f: Seq<OpView>, s: PlanView, counts: Seq<usize>, slot: usize, i: int, m: Mach) -> (n: Mach)
    requires
        0 <= i <= counts.len(),
    ensures
        ({
            let t = emission::store_counts(s, counts, slot, i);
            &&& flows(h, f, s, m, t, n)
            &&& is_part(f, t) && counts.len() <= usize::MAX && are_stored(m, slot, counts_of(counts).take(i)) ==> still(m, n, s.ops.len() as int) && n.world == m.world && are_stored(n, slot, counts_of(counts))
        }),
    decreases counts.len() - i,
{
    let ws = counts_of(counts);
    reach_self(h, f, Spot::At(s.ops.len() as int, m));
    if i >= counts.len() {
        assert(ws.take(i) =~= ws);
        m
    } else {
        let t = emission::store_counts(s, counts, slot, i);
        let (s1, value) = emission::iconst64(s, counts[i] as i64);
        let m1 = iconst_runs(h, f, s, ClifTy::I64, counts[i] as i64, m);
        let s2 = clif::emit(s1, OpView::StackStore { value, slot, cell: Cell::Word, index: i as usize });
        let m2 = cell_runs(h, f, s1, value, slot, Cell::Word, i, ws, m1);
        let n = counts_run(h, f, s2, counts, slot, i + 1, m2);
        chain(h, f, s, m, s1, m1, s2, m2);
        chain(h, f, s, m, s2, m2, t, n);
        n
    }
}

proof fn flags_run(h: Host, f: Seq<OpView>, s: PlanView, flags: Seq<bool>, slot: usize, i: int, m: Mach) -> (n: Mach)
    requires
        0 <= i <= flags.len(),
    ensures
        ({
            let t = emission::store_flags(s, flags, slot, i);
            &&& flows(h, f, s, m, t, n)
            &&& is_part(f, t) && flags.len() <= usize::MAX && are_stored(m, slot, flags_of(flags).take(i)) ==> still(m, n, s.ops.len() as int) && n.world == m.world && are_stored(n, slot, flags_of(flags))
        }),
    decreases flags.len() - i,
{
    let ws = flags_of(flags);
    reach_self(h, f, Spot::At(s.ops.len() as int, m));
    if i >= flags.len() {
        assert(ws.take(i) =~= ws);
        m
    } else {
        let t = emission::store_flags(s, flags, slot, i);
        let flag: i64 = if flags[i] { 1 } else { 0 };
        let (s1, value) = emission::req(s, OpView::Iconst { ty: ClifTy::I8, value: flag });
        let m1 = iconst_runs(h, f, s, ClifTy::I8, flag, m);
        let s2 = clif::emit(s1, OpView::StackStore { value, slot, cell: Cell::Byte, index: i as usize });
        let m2 = cell_runs(h, f, s1, value, slot, Cell::Byte, i, ws, m1);
        let n = flags_run(h, f, s2, flags, slot, i + 1, m2);
        chain(h, f, s, m, s1, m1, s2, m2);
        chain(h, f, s, m, s2, m2, t, n);
        n
    }
}

/// The address of a slot stands for the words in its cells.
proof fn slot_runs(h: Host, f: Seq<OpView>, s: PlanView, slot: usize, cell: Cell, ws: Seq<int>, m: Mach) -> (n: Mach)
    ensures
        ({
            let t = clif::emit(s, OpView::StackAddr(slot));
            &&& flows(h, f, s, m, t, n)
            &&& is_part(f, t) && ws.len() <= usize::MAX && f[slot as int] == (OpView::StackSlot { cell, count: ws.len() as usize }) && are_stored(m, slot, ws) ==> clif::next(s) == s.ops.len() && n == execution::put(m, clif::next(s), (h.row)(cell, ws))
        }),
{
    let n = op_runs(h, f, s, OpView::StackAddr(slot), m);
    if is_part(f, clif::emit(s, OpView::StackAddr(slot))) && ws.len() <= usize::MAX && f[slot as int] == (OpView::StackSlot { cell, count: ws.len() as usize }) && are_stored(m, slot, ws) {
        assert(Seq::new(ws.len() as usize as nat, |i: int| m.cells[(slot, i as usize)]) =~= ws) by {
            assert forall|k: int| 0 <= k < ws.len() implies m.cells[(slot, k as usize)] == #[trigger] ws[k] by {
                assert(m.cells[(slot, k as usize)] == ws[k]);
            }
        }
    }
    n
}

/// The tables of a closure of several arities are on the stack.
#[verifier::spinoff_prover]
#[verifier::rlimit(60)]
proof fn tables_run(h: Host, f: Seq<OpView>, env: EnvView, s: PlanView, t: ClosureTemplate, m: Mach) -> (n: Mach)
    requires
        ({
            let k = t.arity_fn_names@.len() as usize;
            let (s3, func_slot) = emission::req(s, OpView::StackSlot { cell: Cell::Word, count: k });
            emission::store_funcs(env, s3, t.arity_fn_names@, func_slot, 0) is Ok
        }),
    ensures
        ({
            let k = t.arity_fn_names@.len() as usize;
            let slot_op = OpView::StackSlot { cell: Cell::Word, count: k };
            let (s3, func_slot) = emission::req(s, slot_op);
            let s4 = emission::store_funcs(env, s3, t.arity_fn_names@, func_slot, 0)->Ok_0;
            let (s5, funcs) = emission::req(s4, OpView::StackAddr(func_slot));
            let (s6, count_slot) = emission::req(s5, slot_op);
            let s7 = emission::store_counts(s6, t.param_counts@, count_slot, 0);
            let (s8, counts) = emission::req(s7, OpView::StackAddr(count_slot));
            let (s9, flag_slot) = emission::req(s8, OpView::StackSlot { cell: Cell::Byte, count: k });
            let s10 = emission::store_flags(s9, t.is_variadic@, flag_slot, 0);
            let (s11, flags) = emission::req(s10, OpView::StackAddr(flag_slot));
            let (s12, arities) = emission::iconst64(s11, k as i64);
            &&& flows(h, f, s, m, s12, n)
            &&& is_part(f, s12) && t.param_counts@.len() == t.arity_fn_names@.len() && t.is_variadic@.len() == t.arity_fn_names@.len() ==> {
                &&& still(m, n, s.ops.len() as int)
                &&& n.world == m.world
                &&& n.vals[funcs] == (h.row)(Cell::Word, codes_of(h, t.arity_fn_names@))
                &&& n.vals[counts] == (h.row)(Cell::Word, counts_of(t.param_counts@))
                &&& n.vals[flags] == (h.row)(Cell::Byte, flags_of(t.is_variadic@))
                &&& n.vals[arities] == t.arity_fn_names@.len()
            }
        }),
{
    let k = t.arity_fn_names@.len() as usize;
    let slot_op = OpView::StackSlot { cell: Cell::Word, count: k };
    let byte_op = OpView::StackSlot { cell: Cell::Byte, count: k };
    let (s3, func_slot) = emission::req(s, slot_op);
    let m3 = op_runs(h, f, s, slot_op, m);
    let s4 = emission::store_funcs(env, s3, t.arity_fn_names@, func_slot, 0)->Ok_0;
    let m4 = funcs_run(h, f, env, s3, t.arity_fn_names@, func_slot, 0, m3);
    let (s5, funcs) = emission::req(s4, OpView::StackAddr(func_slot));
    let m5 = slot_runs(h, f, s4, func_slot, Cell::Word, codes_of(h, t.arity_fn_names@), m4);
    let (s6, count_slot) = emission::req(s5, slot_op);
    let m6 = op_runs(h, f, s5, slot_op, m5);
    let s7 = emission::store_counts(s6, t.param_counts@, count_slot, 0);
    let m7 = counts_run(h, f, s6, t.param_counts@, count_slot, 0, m6);
    let (s8, counts) = emission::req(s7, OpView::StackAddr(count_slot));
    let m8 = slot_runs(h, f, s7, count_slot, Cell::Word, counts_of(t.param_counts@), m7);
    let (s9, flag_slot) = emission::req(s8, byte_op);
    let m9 = op_runs(h, f, s8, byte_op, m8);
    let s10 = emission::store_flags(s9, t.is_variadic@, flag_slot, 0);
    let m10 = flags_run(h, f, s9, t.is_variadic@, flag_slot, 0, m9);
    let (s11, flags) = emission::req(s10, OpView::StackAddr(flag_slot));
    let m11 = slot_runs(h, f, s10, flag_slot, Cell::Byte, flags_of(t.is_variadic@), m10);
    let (s12, arities) = emission::iconst64(s11, k as i64);
    let n = iconst_runs(h, f, s11, ClifTy::I64, k as i64, m11);
    chain(h, f, s, m, s3, m3, s4, m4);
    chain(h, f, s, m, s4, m4, s5, m5);
    chain(h, f, s, m, s5, m5, s6, m6);
    chain(h, f, s, m, s6, m6, s7, m7);
    chain(h, f, s, m, s7, m7, s8, m8);
    chain(h, f, s, m, s8, m8, s9, m9);
    chain(h, f, s, m, s9, m9, s10, m10);
    chain(h, f, s, m, s10, m10, s11, m11);
    chain(h, f, s, m, s11, m11, s12, n);
    if is_part(f, s12) && t.param_counts@.len() == t.arity_fn_names@.len() && t.is_variadic@.len() == t.arity_fn_names@.len() {
        assert(f[func_slot as int] == slot_op && f[count_slot as int] == slot_op && f[flag_slot as int] == byte_op);
        assert(are_stored(m3, func_slot, codes_of(h, t.arity_fn_names@).take(0)));
        assert(are_stored(m6, count_slot, counts_of(t.param_counts@).take(0)));
        assert(are_stored(m9, flag_slot, flags_of(t.is_variadic@).take(0)));
        assert(m5.vals[funcs] == (h.row)(Cell::Word, codes_of(h, t.arity_fn_names@)));
        assert(m8.vals[counts] == (h.row)(Cell::Word, counts_of(t.param_counts@)));
        assert(m7.vals[funcs] == m5.vals[funcs]);
        assert(m10.vals[funcs] == m5.vals[funcs]);
        assert(m10.vals[counts] == m8.vals[counts]);
    }
    n
}

/// A closure is made.
proof fn closure_runs(h: Host, f: Seq<OpView>, base: int, env: EnvView, s: PlanView, c: ClosureTemplate, captures: Seq<VarId>, m: Mach) -> (n: Mach)
    requires
        execution::is_fair(h),
        emission::closure(env, s, c, captures) is Ok,
    ensures
        ({
            let (t, x) = emission::closure(env, s, c, captures)->Ok_0;
            gets(h, f, base, s, m, t, x, n, execution::made(h, reading(env), c, captures, m.vars, m.world))
        }),
{
    let (t, x) = emission::closure(env, s, c, captures)->Ok_0;
    let names = c.arity_fn_names@;
    if names.len() == 0 {
        assert(execution::words(m, Seq::empty()) =~= Seq::<int>::empty());
        call_runs(h, f, s, RtFn::ConstNil, Seq::empty(), m)
    } else {
        let count = captures.len() as usize as i64;
        let name = emission::closure_name(c);
        let (s1, np, nl) = emission::text_ptr(s, name);
        let m1 = text_runs(h, f, s, name, m);
        let (s2, caps, ncaps) = emission::spill_counted(env, s1, captures, count);
        let m2 = counted_runs(h, f, env, s1, captures, count, m1);
        chain(h, f, s, m, s1, m1, s2, m2);
        if names.len() == 1 {
            let (s3, func) = emission::func_ptr(env, s2, names[0]@)->Ok_0;
            let m3 = func_runs(h, f, env, s2, names[0]@, m2);
            let (s4, k) = emission::iconst64(s3, c.param_counts@[0] as i64);
            let m4 = iconst_runs(h, f, s3, ClifTy::I64, c.param_counts@[0] as i64, m3);
            let rt = if c.is_variadic@[0] { RtFn::MakeFnVariadic } else { RtFn::MakeFn };
            let args = seq![np, nl, func, k, caps, ncaps];
            let n = call_runs(h, f, s4, rt, args, m4);
            chain(h, f, s, m, s2, m2, s3, m3);
            chain(h, f, s, m, s3, m3, s4, m4);
            chain(h, f, s, m, s4, m4, t, n);
            if is_part(f, t) {
                let e = reading(env);
                let caught = execution::in_row(h, execution::values_of(h, e, m.vars, captures), captures.len() as int);
                assert(m4.vals[np] == (h.text)(name) && m4.vals[nl] == emission::byte_len(name));
                assert(m4.vals[caps] == m2.vals[caps] && m4.vals[ncaps] == m2.vals[ncaps]);
                assert(seq![m2.vals[caps], m2.vals[ncaps]] == caught);
                assert(seq![m2.vals[caps], m2.vals[ncaps]][0] == m2.vals[caps]);
                assert(seq![m2.vals[caps], m2.vals[ncaps]][1] == m2.vals[ncaps]);
                assert(execution::words(m4, args) =~= execution::as_text(h, name) + seq![(h.code)(names[0]@), c.param_counts@[0] as i64 as int] + caught);
            }
            n
        } else {
            let m3 = tables_run(h, f, env, s2, c, m2);
            let k = names.len() as usize;
            let slot_op = OpView::StackSlot { cell: Cell::Word, count: k };
            let (s3, func_slot) = emission::req(s2, slot_op);
            let s4 = emission::store_funcs(env, s3, names, func_slot, 0)->Ok_0;
            let (s5, funcs) = emission::req(s4, OpView::StackAddr(func_slot));
            let (s6, count_slot) = emission::req(s5, slot_op);
            let s7 = emission::store_counts(s6, c.param_counts@, count_slot, 0);
            let (s8, counts) = emission::req(s7, OpView::StackAddr(count_slot));
            let (s9, flag_slot) = emission::req(s8, OpView::StackSlot { cell: Cell::Byte, count: k });
            let s10 = emission::store_flags(s9, c.is_variadic@, flag_slot, 0);
            let (s11, flags) = emission::req(s10, OpView::StackAddr(flag_slot));
            let (s12, arities) = emission::iconst64(s11, k as i64);
            let args = seq![np, nl, funcs, counts, flags, arities, caps, ncaps];
            let n = call_runs(h, f, s12, RtFn::MakeFnMulti, args, m3);
            chain(h, f, s, m, s2, m2, s12, m3);
            chain(h, f, s, m, s12, m3, t, n);
            if is_part(f, t) && c.param_counts@.len() == names.len() && c.is_variadic@.len() == names.len() {
                let caught = execution::in_row(h, execution::values_of(h, reading(env), m.vars, captures), captures.len() as int);
                let row = seq![m2.vals[caps], m2.vals[ncaps]];
                assert(row == caught && row[0] == m2.vals[caps] && row[1] == m2.vals[ncaps]);
                assert(m3.vals[caps] == m2.vals[caps] && m3.vals[ncaps] == m2.vals[ncaps]);
                assert(m3.vals[np] == (h.text)(name) && m3.vals[nl] == emission::byte_len(name));
                assert(codes_of(h, names) =~= Seq::new(names.len(), |i: int| (h.code)(c.arity_fn_names@[i]@)));
                assert(counts_of(c.param_counts@) =~= Seq::new(names.len(), |i: int| c.param_counts@[i] as i64 as int));
                assert(flags_of(c.is_variadic@) =~= Seq::new(names.len(), |i: int| execution::flag(c.is_variadic@[i])));
                assert(execution::words(m3, args) =~= execution::as_text(h, name) + seq![m3.vals[funcs], m3.vals[counts], m3.vals[flags], m3.vals[arities]] + caught);
            }
            n
        }
    }
}

/// A bridge function that does what a known function is to do is the one that is called for it.
proof fn bridge_is_called(kf: KnownFn, g: RtFn)
    ensures
        execution::one_by_one(g).contains(kf) ==> emission::fixed_bridge(kf) == Some(g),
        emission::fixed_bridge(kf) == Some(g) ==> execution::one_by_one(g).contains(kf),
{
    let ks = execution::one_by_one(g);
    if ks.contains(kf) {
        let i = ks.index_of(kf);
        assert(ks.len() <= 2);
        assert(i == 0 || i == 1);
        assert(ks[i] == kf);
    }
    if emission::fixed_bridge(kf) == Some(g) {
        assert(ks.len() > 0 && ks[0] == kf || ks.len() > 1 && ks[1] == kf);
    }
}

proof fn bridges_are_called(kf: KnownFn)
    ensures
        match emission::fixed_bridge(kf) {
            Some(f) => (exists|g: RtFn| #[trigger] execution::one_by_one(g).contains(kf)) && (choose|g: RtFn| #[trigger] execution::one_by_one(g).contains(kf)) == f,
            None => !(exists|g: RtFn| #[trigger] execution::one_by_one(g).contains(kf)),
        },
{
    assert forall|g: RtFn| #[trigger] execution::one_by_one(g).contains(kf) implies emission::fixed_bridge(kf) == Some(g) by {
        bridge_is_called(kf, g);
    }
    if let Some(f) = emission::fixed_bridge(kf) {
        bridge_is_called(kf, f);
    }
}

/// An atom is swapped.
proof fn swap_runs(h: Host, f: Seq<OpView>, env: EnvView, s: PlanView, args: Seq<VarId>, m: Mach) -> (n: Mach)
    requires
        execution::is_fair(h),
        args.len() >= 2,
    ensures
        ({
            let (t, x) = emission::atom_swap(env, s, args);
            let xs = execution::values_of(h, reading(env), m.vars, args);
            let r = (h.rt)(RtFn::AtomSwap, seq![xs[0], xs[1]] + execution::in_row(h, xs.skip(2), args.len() - 2), m.world);
            &&& flows(h, f, s, m, t, n)
            &&& is_part(f, t) ==> n.vars == m.vars && n.params == m.params && n.world == r.1 && n.vals[x] == r.0
        }),
{
    let (t, x) = emission::atom_swap(env, s, args);
    let e = reading(env);
    let xs = execution::values_of(h, e, m.vars, args);
    let (s1, atom) = emission::use_boxed(env, s, args[0]);
    let m1 = boxed_runs(h, f, env, s, args[0], m);
    let (s2, g) = emission::use_boxed(env, s1, args[1]);
    let m2 = boxed_runs(h, f, env, s1, args[1], m1);
    let extra = args.subrange(2, args.len() as int);
    let count = extra.len() as usize as i64;
    let (s3, ptr, c) = emission::spill_counted(env, s2, extra, count);
    let m3 = counted_runs(h, f, env, s2, extra, count, m2);
    let all = seq![atom, g, ptr, c];
    let n = call_runs(h, f, s3, RtFn::AtomSwap, all, m3);
    chain(h, f, s, m, s1, m1, s2, m2);
    chain(h, f, s, m, s2, m2, s3, m3);
    chain(h, f, s, m, s3, m3, t, n);
    if is_part(f, t) {
        assert(execution::values_of(h, e, m.vars, extra) =~= xs.skip(2));
        let row = seq![m3.vals[ptr], m3.vals[c]];
        assert(row == execution::in_row(h, xs.skip(2), args.len() - 2));
        assert(row[0] == m3.vals[ptr] && row[1] == m3.vals[c]);
        assert(m3.vals[atom] == xs[0] && m3.vals[g] == xs[1]);
        assert(execution::words(m3, all) =~= seq![xs[0], xs[1]] + row);
    }
    n
}

/// A body is run with bindings.
proof fn with_bindings_runs(h: Host, f: Seq<OpView>, env: EnvView, s: PlanView, args: Seq<VarId>, m: Mach) -> (n: Mach)
    requires
        execution::is_fair(h),
        args.len() >= 1,
    ensures
        ({
            let (t, x) = emission::with_bindings(env, s, args);
            let xs = execution::values_of(h, reading(env), m.vars, args);
            let pairs = (args.len() - 1) / 2;
            let r = (h.rt)(RtFn::WithBindings, execution::in_row(h, if pairs > 0 { xs.drop_last() } else { Seq::empty() }, pairs).push(xs.last()), m.world);
            &&& flows(h, f, s, m, t, n)
            &&& is_part(f, t) && args.len() <= i32::MAX ==> n.vars == m.vars && n.params == m.params && n.world == r.1 && n.vals[x] == r.0
        }),
{
    let (t, x) = emission::with_bindings(env, s, args);
    let e = reading(env);
    let xs = execution::values_of(h, e, m.vars, args);
    let bindings = args.drop_last();
    let npairs = (bindings.len() / 2) as usize;
    let vs = if npairs > 0 { bindings } else { Seq::empty() };
    let (s1, body) = emission::use_boxed(env, s, args.last());
    let m1 = boxed_runs(h, f, env, s, args.last(), m);
    let (s2, ptr, c) = emission::spill_counted(env, s1, vs, npairs as i64);
    let m2 = counted_runs(h, f, env, s1, vs, npairs as i64, m1);
    let all = seq![ptr, c, body];
    let n = call_runs(h, f, s2, RtFn::WithBindings, all, m2);
    chain(h, f, s, m, s1, m1, s2, m2);
    chain(h, f, s, m, s2, m2, t, n);
    if is_part(f, t) && args.len() <= i32::MAX {
        let pairs = (args.len() - 1) / 2;
        let ys = if pairs > 0 { xs.drop_last() } else { Seq::empty() };
        assert(npairs == pairs);
        assert(execution::values_of(h, e, m.vars, vs) =~= ys);
        let row = seq![m2.vals[ptr], m2.vals[c]];
        assert(row == execution::in_row(h, ys, pairs));
        assert(row[0] == m2.vals[ptr] && row[1] == m2.vals[c]);
        assert(m2.vals[body] == xs.last());
        assert(execution::words(m2, all) =~= row.push(xs.last()));
    }
    n
}

/// Arguments are handed over one by one.
proof fn bridged_runs(h: Host, f: Seq<OpView>, env: EnvView, s: PlanView, rt: RtFn, args: Seq<VarId>, m: Mach) -> (n: Mach)
    requires
        execution::is_fair(h),
    ensures
        ({
            let (s1, ys) = emission::use_all_boxed(env, s, args, 0, Seq::empty());
            let (t, x) = emission::call_rt(s1, rt, ys);
            let r = (h.rt)(rt, execution::values_of(h, reading(env), m.vars, args), m.world);
            &&& flows(h, f, s, m, t, n)
            &&& is_part(f, t) ==> n.vars == m.vars && n.params == m.params && n.world == r.1 && n.vals[x] == r.0
        }),
{
    let none: Seq<usize> = Seq::empty();
    let (s1, ys) = emission::use_all_boxed(env, s, args, 0, none);
    let (t, x) = emission::call_rt(s1, rt, ys);
    let m1 = all_boxed_run(h, f, env, s, args, 0, none, m);
    let n = call_runs(h, f, s1, rt, ys, m1);
    chain(h, f, s, m, s1, m1, t, n);
    if is_part(f, t) {
        assert(args.skip(0) =~= args);
        assert(execution::words(m1, ys) =~= execution::values_of(h, reading(env), m.vars, args));
    }
    n
}

/// A known function is called.
#[verifier::spinoff_prover]
#[verifier::rlimit(50)]
proof fn known_runs(h: Host, f: Seq<OpView>, base: int, env: EnvView, s: PlanView, d: VarId, kf: KnownFn, args: Seq<VarId>, m: Mach) -> (n: Mach)
    requires
        execution::is_fair(h),
        emission::known_call(env, s, d, kf, args) is Ok,
        emission::known_ok(kf, args.len()),
    ensures
        ({
            let (t, x) = emission::known_call(env, s, d, kf, args)->Ok_0;
            gets(h, f, base, s, m, t, x, n, execution::known(h, reading(env), d, kf, args, m.vars, m.world))
        }),
{
    if emission::repr_of(env, d) != Repr::Boxed && args.len() == 2 {
        raw_runs(h, f, base, env, s, emission::repr_of(env, d), kf, args[0], args[1], m)
    } else if kf == KnownFn::AtomSwap {
        swap_runs(h, f, env, s, args, m)
    } else if kf == KnownFn::WithBindings {
        with_bindings_runs(h, f, env, s, args, m)
    } else {
        bridges_are_called(kf);
        match emission::variadic_bridge(kf, args.len()) {
            Some(rt) => {
                assert(execution::in_a_row(kf, args.len()) == Some(rt));
                assert(rt == RtFn::AllocMap <==> kf is HashMap);
                alloc_runs(h, f, env, s, rt, args, m)
            },
            None => {
                assert(execution::in_a_row(kf, args.len()) is None);
                match emission::fixed_bridge(kf) {
                    Some(rt) => bridged_runs(h, f, env, s, rt, args, m),
                    None => {
                        assert(execution::words(m, Seq::empty()) =~= Seq::<int>::empty());
                        call_runs(h, f, s, RtFn::ConstNil, Seq::empty(), m)
                    },
                }
            },
        }
    }
}

proof fn flat_is_in_turn(ps: Seq<(VarId, VarId)>)
    ensures
        emission::flat(ps) == execution::in_turn(ps),
        execution::in_turn(ps).len() == 2 * ps.len(),
    decreases ps.len(),
{
    if ps.len() > 0 {
        flat_is_in_turn(ps.drop_last());
        let a = emission::flat(ps);
        let b = execution::in_turn(ps);
        assert forall|i: int| 0 <= i < a.len() implies a[i] == #[trigger] b[i] by {
            if i < 2 * (ps.len() - 1) {
                assert(emission::flat(ps.drop_last())[i] == execution::in_turn(ps.drop_last())[i]);
            }
        }
        assert(a =~= b);
    } else {
        assert(emission::flat(ps) =~= execution::in_turn(ps));
    }
}

/// A collection is made in a region.
#[verifier::spinoff_prover]
#[verifier::rlimit(40)]
proof fn region_alloc_runs(h: Host, f: Seq<OpView>, base: int, env: EnvView, s: PlanView, region: VarId, kind: ir::RegionAllocKind, vs: Seq<VarId>, m: Mach) -> (n: Mach)
    requires
        execution::is_fair(h),
    ensures
        ({
            let (t, x) = emission::region_alloc(env, s, region, kind, vs);
            gets(h, f, base, s, m, t, x, n, execution::made_in_region(h, reading(env), region, kind, vs, m.vars, m.world))
        }),
{
    let (t, x) = emission::region_alloc(env, s, region, kind, vs);
    let xs = execution::values_of(h, reading(env), m.vars, vs);
    let (s1, handle) = emission::use_var(env, s, region);
    let m1 = use_runs(h, f, env, s, region, m);
    if kind == ir::RegionAllocKind::Cons {
        if vs.len() == 2 {
            let (s2, a) = emission::use_boxed(env, s1, vs[0]);
            let m2 = boxed_runs(h, f, env, s1, vs[0], m1);
            let (s3, b) = emission::use_boxed(env, s2, vs[1]);
            let m3 = boxed_runs(h, f, env, s2, vs[1], m2);
            let n = call_runs(h, f, s3, RtFn::RegionAllocCons, seq![handle, a, b], m3);
            chain(h, f, s, m, s1, m1, s2, m2);
            chain(h, f, s, m, s2, m2, s3, m3);
            chain(h, f, s, m, s3, m3, t, n);
            if is_part(f, t) {
                assert(m3.vals[handle] == m.vars[region] && m3.vals[a] == xs[0]);
                assert(execution::words(m3, seq![handle, a, b]) =~= seq![m.vars[region], xs[0], xs[1]]);
            }
            n
        } else {
            let n = call_runs(h, f, s1, RtFn::ConstNil, Seq::empty(), m1);
            chain(h, f, s, m, s1, m1, t, n);
            assert(execution::words(m1, Seq::empty()) =~= Seq::<int>::empty());
            n
        }
    } else {
        let rt = emission::region_bridge(kind);
        let k = vs.len() as usize;
        assert(rt == execution::in_region(kind));
        assert(rt == RtFn::RegionAllocMap <==> kind is HashMap);
        if vs.len() == 0 {
            let (s2, func) = emission::req(s1, OpView::ImportRt(rt));
            let m2 = op_runs(h, f, s1, OpView::ImportRt(rt), m1);
            let (s3, null) = emission::null_ptr(s2);
            let m3 = iconst_runs(h, f, s2, ClifTy::Ptr, 0, m2);
            let (s4, zero) = emission::iconst64(s3, 0);
            let m4 = iconst_runs(h, f, s3, ClifTy::I64, 0, m3);
            let n = op_runs(h, f, s4, OpView::Call { func, args: seq![handle, null, zero] }, m4);
            chain(h, f, s, m, s1, m1, s2, m2);
            chain(h, f, s, m, s2, m2, s3, m3);
            chain(h, f, s, m, s3, m3, s4, m4);
            chain(h, f, s, m, s4, m4, t, n);
            if is_part(f, t) {
                assert(f[func as int] == OpView::ImportRt(rt));
                assert(execution::words(m4, seq![handle, null, zero]) =~= seq![m.vars[region]] + execution::in_row(h, xs, 0));
            }
            n
        } else {
            let (s2, addr) = emission::spill(env, s1, vs);
            let m2 = spill_runs(h, f, env, s1, vs, m1);
            let (s3, func) = emission::req(s2, OpView::ImportRt(rt));
            let m3 = op_runs(h, f, s2, OpView::ImportRt(rt), m2);
            let value = if rt == RtFn::RegionAllocMap { (k / 2) as i64 } else { k as i64 };
            let (s4, count) = emission::iconst64(s3, value);
            let m4 = iconst_runs(h, f, s3, ClifTy::I64, value, m3);
            let n = op_runs(h, f, s4, OpView::Call { func, args: seq![handle, addr, count] }, m4);
            chain(h, f, s, m, s1, m1, s2, m2);
            chain(h, f, s, m, s2, m2, s3, m3);
            chain(h, f, s, m, s3, m3, s4, m4);
            chain(h, f, s, m, s4, m4, t, n);
            if is_part(f, t) {
                assert(f[func as int] == OpView::ImportRt(rt));
                assert(m4.vals[handle] == m.vars[region] && m4.vals[addr] == m2.vals[addr]);
                assert(execution::words(m4, seq![handle, addr, count]) =~= seq![m.vars[region]] + execution::in_row(h, xs, if kind is HashMap { vs.len() as int / 2 } else { vs.len() as int }));
            }
            n
        }
    }
}

/// Two values are handed to a bridge function.
proof fn two_run(h: Host, f: Seq<OpView>, env: EnvView, s: PlanView, rt: RtFn, a: VarId, b: VarId, m: Mach) -> (n: Mach)
    requires
        execution::is_fair(h),
    ensures
        ({
            let (s1, x) = emission::use_boxed(env, s, a);
            let (s2, y) = emission::use_boxed(env, s1, b);
            let (t, z) = emission::call_rt(s2, rt, seq![x, y]);
            let e = reading(env);
            let r = (h.rt)(rt, seq![execution::value_of(h, e, m.vars, a), execution::value_of(h, e, m.vars, b)], m.world);
            &&& flows(h, f, s, m, t, n)
            &&& is_part(f, t) ==> n.vars == m.vars && n.params == m.params && n.world == r.1 && n.vals[z] == r.0
        }),
{
    let e = reading(env);
    let (s1, x) = emission::use_boxed(env, s, a);
    let m1 = boxed_runs(h, f, env, s, a, m);
    let (s2, y) = emission::use_boxed(env, s1, b);
    let m2 = boxed_runs(h, f, env, s1, b, m1);
    let t = emission::call_rt(s2, rt, seq![x, y]).0;
    let n = call_runs(h, f, s2, rt, seq![x, y], m2);
    chain(h, f, s, m, s1, m1, s2, m2);
    chain(h, f, s, m, s2, m2, t, n);
    if is_part(f, t) {
        assert(m2.vals[x] == m1.vals[x]);
        assert(execution::words(m2, seq![x, y]) =~= seq![execution::value_of(h, e, m.vars, a), execution::value_of(h, e, m.vars, b)]);
    }
    n
}

/// A value is handed to a bridge function.
proof fn one_runs(h: Host, f: Seq<OpView>, env: EnvView, s: PlanView, rt: RtFn, a: VarId, m: Mach) -> (n: Mach)
    requires
        execution::is_fair(h),
    ensures
        ({
            let (s1, x) = emission::use_boxed(env, s, a);
            let (t, z) = emission::call_rt(s1, rt, seq![x]);
            let r = (h.rt)(rt, seq![execution::value_of(h, reading(env), m.vars, a)], m.world);
            &&& flows(h, f, s, m, t, n)
            &&& is_part(f, t) ==> n.vars == m.vars && n.params == m.params && n.world == r.1 && n.vals[z] == r.0
        }),
{
    let (s1, x) = emission::use_boxed(env, s, a);
    let m1 = boxed_runs(h, f, env, s, a, m);
    let t = emission::call_rt(s1, rt, seq![x]).0;
    let n = call_runs(h, f, s1, rt, seq![x], m1);
    chain(h, f, s, m, s1, m1, t, n);
    assert(execution::words(m1, seq![x]) =~= seq![m1.vals[x]]);
    n
}

/// A declared function is called with a region.
proof fn with_region_runs(h: Host, f: Seq<OpView>, env: EnvView, s: PlanView, name: Seq<char>, args: Seq<VarId>, region: VarId, m: Mach) -> (n: Mach)
    requires
        execution::is_fair(h),
        ({
            let (s1, handle) = emission::use_var(env, s, region);
            emission::direct_call(env, s1, "CallWithRegion"@, name, args, seq![handle]) is Ok
        }),
    ensures
        ({
            let (s1, handle) = emission::use_var(env, s, region);
            let (t, x) = emission::direct_call(env, s1, "CallWithRegion"@, name, args, seq![handle])->Ok_0;
            let r = (h.user)(name, execution::values_of(h, reading(env), m.vars, args).push(m.vars[region]), m.world);
            &&& flows(h, f, s, m, t, n)
            &&& is_part(f, t) ==> n.vars == m.vars && n.params == m.params && n.world == r.1 && n.vals[x] == r.0
        }),
{
    let (s1, handle) = emission::use_var(env, s, region);
    let m1 = use_runs(h, f, env, s, region, m);
    let (t, x) = emission::direct_call(env, s1, "CallWithRegion"@, name, args, seq![handle])->Ok_0;
    let n = direct_runs(h, f, env, s1, "CallWithRegion"@, name, args, seq![handle], m1);
    chain(h, f, s, m, s1, m1, t, n);
    if is_part(f, t) {
        assert(execution::values_of(h, reading(env), m1.vars, args) + execution::words(m1, seq![handle]) =~= execution::values_of(h, reading(env), m.vars, args).push(m.vars[region]));
    }
    n
}

/// An instruction has the word that it should, or leaves as it should.
#[verifier::spinoff_prover]
#[verifier::rlimit(80)]
proof fn value_runs(h: Host, f: Seq<OpView>, base: int, env: EnvView, s: PlanView, inst: Inst, m: Mach) -> (n: Mach)
    requires
        execution::is_fair(h),
        emission::inst_value(env, s, inst) is Ok,
        emission::inst_ok(inst),
    ensures
        ({
            let (t, x) = emission::inst_value(env, s, inst)->Ok_0;
            gets(h, f, base, s, m, t, x, n, execution::effect(h, reading(env), inst, m.vars, m.world))
        }),
{
    let (t, x) = emission::inst_value(env, s, inst)->Ok_0;
    let e = reading(env);
    assert(execution::words(m, Seq::empty()) =~= Seq::<int>::empty());
    match inst {
        Inst::Const(d, c) => constant_runs(h, f, base, env, s, d, c, m),
        Inst::LoadLocal(_, _) => call_runs(h, f, s, RtFn::ConstNil, Seq::empty(), m),
        Inst::LoadGlobal(_, ns, name) => {
            if env.pins.contains(name@) {
                pinned_runs(h, f, base, s, ns@, name@, m)
            } else {
                named_runs(h, f, s, RtFn::LoadGlobal, ns@, name@, m)
            }
        },
        Inst::LoadVar(_, ns, name) => named_runs(h, f, s, RtFn::LoadVar, ns@, name@, m),
        Inst::AllocVector(_, vs) => alloc_runs(h, f, env, s, RtFn::AllocVector, vs@, m),
        Inst::AllocMap(_, ps) => {
            flat_is_in_turn(ps@);
            alloc_runs(h, f, env, s, RtFn::AllocMap, emission::flat(ps@), m)
        },
        Inst::AllocSet(_, vs) => alloc_runs(h, f, env, s, RtFn::AllocSet, vs@, m),
        Inst::AllocList(_, vs) => alloc_runs(h, f, env, s, RtFn::AllocList, vs@, m),
        Inst::AllocCons(_, head, tail) => two_run(h, f, env, s, RtFn::AllocCons, head, tail, m),
        Inst::AllocClosure(_, c, captures) => closure_runs(h, f, base, env, s, c, captures@, m),
        Inst::CallKnown(d, kf, args) => known_runs(h, f, base, env, s, d, kf, args@, m),
        Inst::Call(_, callee, args) => unknown_runs(h, f, env, s, callee, args@, m),
        Inst::CallDirect(_, name, args) => {
            let n = direct_runs(h, f, env, s, "CallDirect"@, name@, args@, Seq::empty(), m);
            assert(execution::values_of(h, e, m.vars, args@) + execution::words(m, Seq::empty()) =~= execution::values_of(h, e, m.vars, args@));
            n
        },
        Inst::Deref(_, src) => one_runs(h, f, env, s, RtFn::Deref, src, m),
        Inst::DefVar(_, ns, name, val) => def_var_runs(h, f, env, s, ns@, name@, val, m),
        Inst::RegionStart(_) => call_runs(h, f, s, RtFn::RegionStart, Seq::empty(), m),
        Inst::RegionAlloc(_, region, kind, operands) => region_alloc_runs(h, f, base, env, s, region, kind, operands@, m),
        Inst::RegionParam(_) => m,
        Inst::CallWithRegion(_, name, args, region) => with_region_runs(h, f, env, s, name@, args@, region, m),
        _ => m,
    }
}

/// An instruction does what it should.
proof fn inst_runs(h: Host, f: Seq<OpView>, base: int, env: EnvView, s: PlanView, inst: Inst, m: Mach) -> (n: Mach)
    requires
        execution::is_fair(h),
        emission::inst_ops(env, s, inst) is Ok,
        emission::inst_ok(inst),
    ensures
        ({
            let t = emission::inst_ops(env, s, inst)->Ok_0;
            &&& grows(s, t)
            &&& is_fine(f, base, s, t) ==> match execution::done(h, reading(env), inst, m.vars, m.world) {
                Step::On(vars, w) => {
                    &&& execution::reaches(h, f, Spot::At(s.ops.len() as int, m), Spot::At(t.ops.len() as int, n))
                    &&& n.vars == vars
                    &&& n.params == m.params
                    &&& n.world == w
                },
                Step::Out(x, w) => execution::reaches(h, f, Spot::At(s.ops.len() as int, m), Spot::Left(x, w)),
                Step::Lost => true,
            }
        }),
{
    let t = emission::inst_ops(env, s, inst)->Ok_0;
    let e = reading(env);
    reach_self(h, f, Spot::At(s.ops.len() as int, m));
    match inst {
        Inst::SetBang(var, val) => {
            let (s1, a) = emission::use_boxed(env, s, var);
            let m1 = boxed_runs(h, f, env, s, var, m);
            let (s2, b) = emission::use_boxed(env, s1, val);
            let m2 = boxed_runs(h, f, env, s1, val, m1);
            let n = void_runs(h, f, s2, RtFn::SetBang, seq![a, b], m2);
            chain(h, f, s, m, s1, m1, s2, m2);
            chain(h, f, s, m, s2, m2, t, n);
            if is_part(f, t) {
                assert(m2.vals[a] == m1.vals[a]);
                assert(execution::words(m2, seq![a, b]) =~= seq![execution::value_of(h, e, m.vars, var), execution::value_of(h, e, m.vars, val)]);
            }
            n
        },
        Inst::Throw(val) => {
            let (s1, a) = emission::use_boxed(env, s, val);
            let m1 = boxed_runs(h, f, env, s, val, m);
            let n = void_runs(h, f, s1, RtFn::Throw, seq![a], m1);
            chain(h, f, s, m, s1, m1, t, n);
            assert(execution::words(m1, seq![a]) =~= seq![m1.vals[a]]);
            n
        },
        Inst::RegionEnd(region) => {
            let (s1, a) = emission::use_var(env, s, region);
            let m1 = use_runs(h, f, env, s, region, m);
            let n = void_runs(h, f, s1, RtFn::RegionEnd, seq![a], m1);
            chain(h, f, s, m, s1, m1, t, n);
            assert(execution::words(m1, seq![a]) =~= seq![m1.vals[a]]);
            n
        },
        Inst::Phi(_, _) => m,
        Inst::Recur(_) => m,
        Inst::SourceLoc(_) => m,
        _ => {
            let (s1, x) = emission::inst_value(env, s, inst)->Ok_0;
            let m1 = value_runs(h, f, base, env, s, inst, m);
            match inst.spec_dst() {
                Some(d) => {
                    let n = define_runs(h, f, env, s1, d, x, m1);
                    grow_on(s, s1, t);
                    if is_fine(f, base, s, t) {
                        part_before(f, s1, t);
                        match execution::effect(h, e, inst, m.vars, m.world) {
                            Effect::Gives(v, w) => reach_on(h, f, Spot::At(s.ops.len() as int, m), Spot::At(s1.ops.len() as int, m1), Spot::At(t.ops.len() as int, n)),
                            _ => {},
                        }
                    }
                    n
                },
                None => m1,
            }
        },
    }
}

proof fn insts_run(h: Host, f: Seq<OpView>, base: int, env: EnvView, s: PlanView, insts: Seq<Inst>, i: int, m: Mach) -> (n: Mach)
    requires
        execution::is_fair(h),
        0 <= i <= insts.len(),
        emission::insts_ops(env, s, insts, i) is Ok,
        forall|k: int| 0 <= k < insts.len() ==> emission::inst_ok(#[trigger] insts[k]),
    ensures
        ({
            let t = emission::insts_ops(env, s, insts, i)->Ok_0;
            &&& grows(s, t)
            &&& is_fine(f, base, s, t) ==> match execution::all_done(h, reading(env), insts, i, m.vars, m.world) {
                Step::On(vars, w) => {
                    &&& execution::reaches(h, f, Spot::At(s.ops.len() as int, m), Spot::At(t.ops.len() as int, n))
                    &&& n.vars == vars
                    &&& n.params == m.params
                    &&& n.world == w
                },
                Step::Out(x, w) => execution::reaches(h, f, Spot::At(s.ops.len() as int, m), Spot::Left(x, w)),
                Step::Lost => true,
            }
        }),
    decreases insts.len() - i,
{
    if i >= insts.len() {
        reach_self(h, f, Spot::At(s.ops.len() as int, m));
        m
    } else {
        let t = emission::insts_ops(env, s, insts, i)->Ok_0;
        let s1 = emission::inst_ops(env, s, insts[i])->Ok_0;
        let m1 = inst_runs(h, f, base, env, s, insts[i], m);
        let n = insts_run(h, f, base, env, s1, insts, i + 1, m1);
        grow_on(s, s1, t);
        if is_fine(f, base, s, t) {
            part_before(f, s1, t);
            sane_on(s, s1);
            match execution::done(h, reading(env), insts[i], m.vars, m.world) {
                Step::On(vars, w) => match execution::all_done(h, reading(env), insts, i + 1, vars, w) {
                    Step::On(vars2, w2) => reach_on(h, f, Spot::At(s.ops.len() as int, m), Spot::At(s1.ops.len() as int, m1), Spot::At(t.ops.len() as int, n)),
                    Step::Out(x, w2) => reach_on(h, f, Spot::At(s.ops.len() as int, m), Spot::At(s1.ops.len() as int, m1), Spot::Left(x, w2)),
                    _ => {},
                },
                _ => {},
            }
        }
        n
    }
}

/// The variables with the first `n` phis set to words.
spec fn with_phis(vars: Vars, phis: Seq<Inst>, ws: Seq<int>, n: int) -> Vars
    decreases n,
{
    if n <= 0 { vars } else { with_phis(vars, phis, ws, n - 1).insert(phis[n - 1]->Phi_0, ws[n - 1]) }
}

proof fn brought_is_joined(h: Host, e: Reading, phis: Seq<Inst>, from: BlockId, vars: Vars, ws: Seq<int>, n: int)
    requires
        0 <= n <= phis.len(),
        are_fed(phis, from),
        are_brought(h, e, phis, from, vars, ws),
    ensures
        execution::joined(h, e, phis, from, vars, n) == Some(with_phis(vars, phis, ws, n)),
    decreases n,
{
    if n > 0 {
        brought_is_joined(h, e, phis, from, vars, ws, n - 1);
        assert(phis[n - 1] is Phi);
    }
}

proof fn joined_is_fed(h: Host, e: Reading, phis: Seq<Inst>, from: BlockId, vars: Vars, n: int)
    requires
        0 <= n <= phis.len(),
        execution::joined(h, e, phis, from, vars, n) is Some,
    ensures
        forall|k: int| 0 <= k < n ==> #[trigger] phis[k] is Phi && execution::taken(phis[k]->Phi_1@, from, 0) is Some,
    decreases n,
{
    if n > 0 {
        joined_is_fed(h, e, phis, from, vars, n - 1);
    }
}

proof fn passed_is_set(h: Host, e: Reading, phis: Seq<Inst>, args: Seq<VarId>, vars: Vars, ws: Seq<int>, n: int)
    requires
        0 <= n <= phis.len(),
        are_passed(h, e, phis, args, vars, ws),
        execution::passed(h, e, phis, args, vars, n) is Some,
    ensures
        execution::passed(h, e, phis, args, vars, n) == Some(with_phis(vars, phis, ws, n)),
        forall|k: int| 0 <= k < n ==> #[trigger] phis[k] is Phi,
    decreases n,
{
    if n > 0 {
        passed_is_set(h, e, phis, args, vars, ws, n - 1);
        assert(phis[n - 1] is Phi);
    }
}

proof fn given_at(f: Seq<OpView>, b: usize, args: Seq<int>, vals: Map<usize, int>, p: int, n: int)
    requires
        0 <= p < n <= f.len() <= usize::MAX,
        execution::is_param_of(f[p], b),
    ensures
        execution::given(f, b, args, vals, n)[p as usize] == args[execution::params_before(f, b, p) as int],
    decreases n,
{
    if n - 1 > p {
        given_at(f, b, args, vals, p, n - 1);
    }
}

spec fn is_phi_request(op: OpView, block: usize) -> bool {
    op is DeclareVar || op is DefVar || execution::is_param_of(op, block)
}

/// The plan goes on as the other, with requests for phis of a block alone.
spec fn takes(s: PlanView, t: PlanView, block: usize) -> bool {
    &&& s.ops.len() <= t.ops.len()
    &&& forall|p: int| 0 <= p < s.ops.len() ==> #[trigger] t.ops[p] == s.ops[p]
    &&& forall|p: int| s.ops.len() <= p < t.ops.len() ==> is_phi_request(#[trigger] t.ops[p], block)
}

proof fn takes_part(f: Seq<OpView>, s: PlanView, t: PlanView, block: usize)
    requires
        takes(s, t, block),
        is_part(f, t),
    ensures
        is_part(f, s),
{
    assert forall|p: int| 0 <= p < s.ops.len() implies #[trigger] f[p] == s.ops[p] by {
        assert(t.ops[p] == s.ops[p]);
    }
}

/// The values are those with which a block was entered.
spec fn is_entered(f: Seq<OpView>, block: usize, ws: Seq<int>, m: Mach) -> bool {
    forall|p: int| 0 <= p < f.len() && execution::is_param_of(#[trigger] f[p], block) ==> m.vals[p as usize] == ws[execution::params_before(f, block, p) as int]
}

/// The phis of a block are set to the words with which it was entered.
proof fn phis_run(h: Host, f: Seq<OpView>, env: EnvView, s: PlanView, block: usize, phis: Seq<Inst>, i: int, vars: Vars, ws: Seq<int>, m: Mach) -> (n: Mach)
    requires
        0 <= i <= phis.len(),
    ensures
        takes(s, emission::phi_params(env, s, block, phis, i), block),
        ({
            let t = emission::phi_params(env, s, block, phis, i);
            &&& is_part(f, t) && is_entered(f, block, ws, m) && execution::params_before(f, block, s.ops.len() as int) == i && (forall|k: int| 0 <= k < phis.len() ==> #[trigger] phis[k] is Phi) && m.vars == with_phis(vars, phis, ws, i) ==> {
                &&& execution::reaches(h, f, Spot::At(s.ops.len() as int, m), Spot::At(t.ops.len() as int, n))
                &&& n == (Mach { vars: with_phis(vars, phis, ws, phis.len() as int), ..m })
            }
        }),
    decreases phis.len() - i,
{
    let t = emission::phi_params(env, s, block, phis, i);
    reach_self(h, f, Spot::At(s.ops.len() as int, m));
    if i >= phis.len() {
        m
    } else {
        match phis[i] {
            Inst::Phi(dst, entries) => {
                let s1 = emission::ensure_var(env, s, dst);
                ensure_runs(h, f, env, s, dst, m);
                let op = OpView::AppendParam { block, ty: emission::clif_ty(emission::repr_of(env, dst)) };
                let (s2, p) = emission::req(s1, op);
                let s3 = clif::emit(s2, OpView::DefVar { var: dst, value: p });
                let m3 = Mach { vars: m.vars.insert(dst, m.vals[p]), ..m };
                let n = phis_run(h, f, env, s3, block, phis, i + 1, vars, ws, m3);
                assert forall|q: int| 0 <= q < s.ops.len() implies #[trigger] s3.ops[q] == s.ops[q] by {}
                assert forall|q: int| s.ops.len() <= q < s3.ops.len() implies is_phi_request(#[trigger] s3.ops[q], block) by {
                    if q < s1.ops.len() {
                        assert(s3.ops[q] == s1.ops[q]);
                    }
                }
                assert forall|q: int| 0 <= q < s.ops.len() implies #[trigger] t.ops[q] == s.ops[q] by {
                    assert(s3.ops[q] == s.ops[q]);
                }
                assert forall|q: int| s.ops.len() <= q < t.ops.len() implies is_phi_request(#[trigger] t.ops[q], block) by {
                    if q < s3.ops.len() {
                        assert(t.ops[q] == s3.ops[q]);
                    }
                }
                if is_part(f, t) && is_entered(f, block, ws, m) && execution::params_before(f, block, s.ops.len() as int) == i && (forall|k: int| 0 <= k < phis.len() ==> #[trigger] phis[k] is Phi) && m.vars == with_phis(vars, phis, ws, i) {
                    takes_part(f, s3, t, block);
                    let a = s1.ops.len() as int;
                    assert(is_part(f, s1)) by {
                        assert forall|q: int| 0 <= q < s1.ops.len() implies #[trigger] f[q] == s1.ops[q] by {
                            assert(s3.ops[q] == s1.ops[q]);
                        }
                    }
                    assert(s3.ops[a] == op && s3.ops[a + 1] == (OpView::DefVar { var: dst, value: p }));
                    assert(f[a] == op && f[a + 1] == (OpView::DefVar { var: dst, value: p }));
                    assert(p == a);
                    if s1.ops.len() > s.ops.len() {
                        assert(s1.ops[s.ops.len() as int] is DeclareVar);
                        assert(f[s.ops.len() as int] is DeclareVar);
                        assert(execution::params_before(f, block, a) == i);
                    }
                    assert(execution::is_param_of(f[a], block));
                    assert(m.vals[p] == ws[i]);
                    assert(execution::params_before(f, block, a + 1) == i + 1);
                    assert(execution::params_before(f, block, a + 2) == i + 1);
                    reach_one(h, f, Spot::At(a, m));
                    reach_one(h, f, Spot::At(a + 1, m));
                    reach_on(h, f, Spot::At(s.ops.len() as int, m), Spot::At(a, m), Spot::At(a + 1, m));
                    reach_on(h, f, Spot::At(s.ops.len() as int, m), Spot::At(a + 1, m), Spot::At(a + 2, m3));
                    assert(m3.vars == with_phis(vars, phis, ws, i + 1));
                    reach_on(h, f, Spot::At(s.ops.len() as int, m), Spot::At(a + 2, m3), Spot::At(t.ops.len() as int, n));
                }
                n
            },
            _ => {
                let n = phis_run(h, f, env, s, block, phis, i + 1, vars, ws, m);
                if forall|k: int| 0 <= k < phis.len() ==> #[trigger] phis[k] is Phi {
                    assert(phis[i] is Phi);
                }
                n
            },
        }
    }
}

/// The number of the plan's block for block `k`.
spec fn handle(first: int, k: int) -> usize {
    (first + k) as usize
}

/// The blocks of a function with their blocks of the plan, made in order from `first` on.
spec fn are_made(env: EnvView, blocks: Seq<Block>, first: int) -> bool {
    &&& forall|k: int| 0 <= k < blocks.len() ==> env.blocks[(#[trigger] blocks[k]).id.0] == handle(first, k)
    &&& forall|j: int, k: int| 0 <= j < k < blocks.len() ==> (#[trigger] blocks[j]).id != (#[trigger] blocks[k]).id
}

/// Outer blocks are opened and given parameters among the first `k` alone, inner ones where they are made.
spec fn is_orderly(s: PlanView, first: int, base: int, k: int) -> bool {
    forall|p: int| 0 <= p < s.ops.len() ==> match #[trigger] s.ops[p] {
        OpView::SwitchTo(x) => x < p && (x >= base || first <= x < first + k || x < first),
        OpView::AppendParam { block, ty } => block >= base && p == block + 1 || first <= block < first + k,
        _ => true,
    }
}

proof fn orderly_is_sane(s: PlanView, first: int, base: int, k: int)
    requires
        is_orderly(s, first, base, k),
    ensures
        is_sane(s),
{
    assert forall|p: int| 0 <= p < s.ops.len() implies ((#[trigger] s.ops[p]) matches OpView::SwitchTo(b) ==> b < p) by {
    }
}

/// The plan behind the first `k` blocks.
spec fn upto(env: EnvView, s: PlanView, blocks: Seq<Block>, specialized: bool, k: int) -> Result<PlanView, ErrorView>
    decreases k,
{
    if k <= 0 {
        Ok(s)
    } else {
        match upto(env, s, blocks, specialized, k - 1) {
            Err(e) => Err(e),
            Ok(p) => emission::block_ops(env, p, blocks[k - 1], k - 1 > 0 || specialized, blocks),
        }
    }
}

proof fn upto_is_whole(env: EnvView, s: PlanView, blocks: Seq<Block>, specialized: bool, k: int)
    requires
        0 <= k <= blocks.len(),
        emission::blocks_ops(env, s, blocks, specialized, 0) is Ok,
    ensures
        upto(env, s, blocks, specialized, k) is Ok,
        emission::blocks_ops(env, upto(env, s, blocks, specialized, k)->Ok_0, blocks, specialized, k) == emission::blocks_ops(env, s, blocks, specialized, 0),
    decreases k,
{
    if k > 0 {
        upto_is_whole(env, s, blocks, specialized, k - 1);
    }
}

/// A block is entered, its phis are set, and its instructions and its end follow.
proof fn block_grows(h: Host, env: EnvView, s: PlanView, b: Block, switch: bool, blocks: Seq<Block>, first: int, base: int, k: int)
    requires
        execution::is_fair(h),
        emission::block_ops(env, s, b, switch, blocks) is Ok,
        forall|i: int| 0 <= i < b.insts@.len() ==> emission::inst_ok(#[trigger] b.insts@[i]),
        0 <= k,
        0 <= first,
        first + k < base <= s.ops.len(),
        env.blocks[b.id.0] == handle(first, k),
        is_orderly(s, first, base, k) || k == 0 && is_orderly(s, first, base, 1),
        emission::block_ops(env, s, b, switch, blocks)->Ok_0.ops.len() <= usize::MAX,
    ensures
        ({
            let t = emission::block_ops(env, s, b, switch, blocks)->Ok_0;
            &&& s.ops.len() <= t.ops.len()
            &&& forall|p: int| 0 <= p < s.ops.len() ==> #[trigger] t.ops[p] == s.ops[p]
            &&& is_orderly(t, first, base, k + 1)
        }),
{
    let block = env.blocks[b.id.0];
    let s1 = if switch { clif::emit(s, OpView::SwitchTo(block)) } else { s };
    let s2 = emission::phi_params(env, s1, block, b.phis@, 0);
    let s3 = emission::insts_ops(env, s2, b.insts@, 0)->Ok_0;
    let t = emission::block_ops(env, s, b, switch, blocks)->Ok_0;
    let none: Seq<OpView> = Seq::empty();
    let m = Mach { vals: Map::empty(), vars: Map::empty(), cells: Map::empty(), params: Seq::empty(), world: 0 };
    let m2 = phis_run(h, none, env, s1, block, b.phis@, 0, m.vars, Seq::empty(), m);
    let m3 = insts_run(h, none, base, env, s2, b.insts@, 0, m);
    let m4 = term_runs(h, none, env, s3, b.terminator, b.id, blocks, m);
    grow_on(s2, s3, t);
    assert forall|p: int| 0 <= p < s.ops.len() implies #[trigger] t.ops[p] == s.ops[p] by {
        assert(s1.ops[p] == s.ops[p]);
        assert(s2.ops[p] == s1.ops[p]);
    }
    assert forall|p: int| 0 <= p < t.ops.len() implies match #[trigger] t.ops[p] {
        OpView::SwitchTo(x) => x < p && (x >= base || first <= x < first + (k + 1) || x < first),
        OpView::AppendParam { block, ty } => block >= base && p == block + 1 || first <= block < first + (k + 1),
        _ => true,
    } by {
        if p < s.ops.len() {
            assert(t.ops[p] == s.ops[p]);
        } else if p < s1.ops.len() {
            assert(s2.ops[p] == s1.ops[p]);
            assert(t.ops[p] == s2.ops[p]);
        } else if p < s2.ops.len() {
            assert(t.ops[p] == s2.ops[p]);
            assert(is_phi_request(s2.ops[p], block));
        } else {
            assert(is_inward(t.ops[p], s2.ops.len() as int, p));
        }
    }
}

/// A plan is carried out whose blocks follow one another from `s` on.
spec fn is_set_up(h: Host, f: Seq<OpView>, env: EnvView, s: PlanView, blocks: Seq<Block>, specialized: bool, first: int, base: int) -> bool {
    &&& execution::is_fair(h)
    &&& f.len() <= usize::MAX
    &&& f.len() <= i64::MAX
    &&& emission::blocks_ops(env, s, blocks, specialized, 0) is Ok
    &&& f == emission::blocks_ops(env, s, blocks, specialized, 0)->Ok_0.ops.push(OpView::SealAll)
    &&& are_made(env, blocks, first)
    &&& forall|j: int, i: int| 0 <= j < blocks.len() && 0 <= i < blocks[j].insts@.len() ==> emission::inst_ok(#[trigger] blocks[j].insts@[i])
    &&& forall|j: int| 0 <= j < blocks.len() ==> emission::names_blocks(blocks, (#[trigger] blocks[j]).terminator)
    &&& 0 <= first
    &&& first + blocks.len() <= base <= s.ops.len()
    &&& blocks.len() > 0
    &&& is_orderly(s, first, base, if specialized { 0 } else { 1 })
}

spec fn opened(specialized: bool, k: int) -> int {
    if !specialized && k < 1 { 1 } else { k }
}

proof fn upto_is_orderly(h: Host, f: Seq<OpView>, env: EnvView, s: PlanView, blocks: Seq<Block>, specialized: bool, first: int, base: int, k: int, n: int)
    requires
        is_set_up(h, f, env, s, blocks, specialized, first, base),
        0 <= k <= n <= blocks.len(),
        upto(env, s, blocks, specialized, n) is Ok,
        upto(env, s, blocks, specialized, n)->Ok_0.ops.len() <= usize::MAX,
    ensures
        upto(env, s, blocks, specialized, k) is Ok,
        ({
            let p = upto(env, s, blocks, specialized, k)->Ok_0;
            let t = upto(env, s, blocks, specialized, n)->Ok_0;
            &&& s.ops.len() <= p.ops.len() <= t.ops.len()
            &&& forall|q: int| 0 <= q < p.ops.len() ==> #[trigger] t.ops[q] == p.ops[q]
            &&& is_orderly(p, first, base, opened(specialized, k))
            &&& is_orderly(t, first, base, opened(specialized, n))
        }),
    decreases n,
{
    upto_is_whole(env, s, blocks, specialized, k);
    if n > 0 {
        upto_is_whole(env, s, blocks, specialized, n - 1);
        let u = upto(env, s, blocks, specialized, n - 1)->Ok_0;
        let t = upto(env, s, blocks, specialized, n)->Ok_0;
        let b = blocks[n - 1];
        block_is_longer(h, env, u, b, n - 1 > 0 || specialized, blocks);
        upto_is_orderly(h, f, env, s, blocks, specialized, first, base, if k < n { k } else { n - 1 }, n - 1);
        assert forall|i: int| 0 <= i < b.insts@.len() implies emission::inst_ok(#[trigger] b.insts@[i]) by {
            assert(emission::inst_ok(blocks[n - 1].insts@[i]));
        }
        block_grows(h, env, u, b, n - 1 > 0 || specialized, blocks, first, base, n - 1);
        if k < n {
            let p = upto(env, s, blocks, specialized, k)->Ok_0;
            assert forall|q: int| 0 <= q < p.ops.len() implies #[trigger] t.ops[q] == p.ops[q] by {
                assert(u.ops[q] == p.ops[q]);
            }
        }
    }
}

proof fn block_is_longer(h: Host, env: EnvView, s: PlanView, b: Block, switch: bool, blocks: Seq<Block>)
    requires
        execution::is_fair(h),
        emission::block_ops(env, s, b, switch, blocks) is Ok,
        forall|i: int| 0 <= i < b.insts@.len() ==> emission::inst_ok(#[trigger] b.insts@[i]),
    ensures
        s.ops.len() <= emission::block_ops(env, s, b, switch, blocks)->Ok_0.ops.len(),
{
    let block = env.blocks[b.id.0];
    let s1 = if switch { clif::emit(s, OpView::SwitchTo(block)) } else { s };
    let s2 = emission::phi_params(env, s1, block, b.phis@, 0);
    let s3 = emission::insts_ops(env, s2, b.insts@, 0)->Ok_0;
    let none: Seq<OpView> = Seq::empty();
    let m = Mach { vals: Map::empty(), vars: Map::empty(), cells: Map::empty(), params: Seq::empty(), world: 0 };
    let m2 = phis_run(h, none, env, s1, block, b.phis@, 0, m.vars, Seq::empty(), m);
    let m3 = insts_run(h, none, 0, env, s2, b.insts@, 0, m);
    let m4 = term_runs(h, none, env, s3, b.terminator, b.id, blocks, m);
}

/// The plan at the instructions of block `k`.
spec fn inside(env: EnvView, s: PlanView, blocks: Seq<Block>, specialized: bool, k: int) -> PlanView {
    let p = upto(env, s, blocks, specialized, k)->Ok_0;
    let block = env.blocks[blocks[k].id.0];
    let s1 = if k > 0 || specialized { clif::emit(p, OpView::SwitchTo(block)) } else { p };
    emission::phi_params(env, s1, block, blocks[k].phis@, 0)
}

/// Where block `k` stands in the plan.
proof fn block_stands(h: Host, f: Seq<OpView>, env: EnvView, s: PlanView, blocks: Seq<Block>, specialized: bool, first: int, base: int, k: int)
    requires
        is_set_up(h, f, env, s, blocks, specialized, first, base),
        0 <= k < blocks.len(),
    ensures
        ({
            let p = upto(env, s, blocks, specialized, k)->Ok_0;
            let s2 = inside(env, s, blocks, specialized, k);
            let t = emission::block_ops(env, p, blocks[k], k > 0 || specialized, blocks)->Ok_0;
            &&& upto(env, s, blocks, specialized, k) is Ok
            &&& emission::block_ops(env, p, blocks[k], k > 0 || specialized, blocks) is Ok
            &&& is_part(f, p)
            &&& is_part(f, t)
            &&& p.ops.len() <= s2.ops.len() <= t.ops.len()
            &&& is_part(f, s2)
            &&& is_sane(s2)
            &&& base <= p.ops.len()
            &&& is_orderly(p, first, base, opened(specialized, k))
        }),
        is_neat(f, base),
{
    let n = blocks.len() as int;
    upto_is_whole(env, s, blocks, specialized, n);
    upto_is_whole(env, s, blocks, specialized, k);
    upto_is_whole(env, s, blocks, specialized, k + 1);
    let w = emission::blocks_ops(env, s, blocks, specialized, 0)->Ok_0;
    assert(upto(env, s, blocks, specialized, n)->Ok_0 == w);
    upto_is_orderly(h, f, env, s, blocks, specialized, first, base, k, n);
    upto_is_orderly(h, f, env, s, blocks, specialized, first, base, k + 1, n);
    let p = upto(env, s, blocks, specialized, k)->Ok_0;
    let t = upto(env, s, blocks, specialized, k + 1)->Ok_0;
    let b = blocks[k];
    let block = env.blocks[b.id.0];
    let s1 = if k > 0 || specialized { clif::emit(p, OpView::SwitchTo(block)) } else { p };
    let s2 = inside(env, s, blocks, specialized, k);
    let s3 = emission::insts_ops(env, s2, b.insts@, 0)->Ok_0;
    assert forall|i: int| 0 <= i < b.insts@.len() implies emission::inst_ok(#[trigger] b.insts@[i]) by {
        assert(emission::inst_ok(blocks[k].insts@[i]));
    }
    let none: Seq<OpView> = Seq::empty();
    let m = Mach { vals: Map::empty(), vars: Map::empty(), cells: Map::empty(), params: Seq::empty(), world: 0 };
    let m2 = phis_run(h, none, env, s1, block, b.phis@, 0, m.vars, Seq::empty(), m);
    let m3 = insts_run(h, none, base, env, s2, b.insts@, 0, m);
    let m4 = term_runs(h, none, env, s3, b.terminator, b.id, blocks, m);
    grow_on(s2, s3, t);
    assert forall|q: int| 0 <= q < t.ops.len() implies #[trigger] f[q] == t.ops[q] by {
        assert(w.ops[q] == t.ops[q]);
    }
    assert forall|q: int| 0 <= q < p.ops.len() implies #[trigger] f[q] == p.ops[q] by {
        assert(w.ops[q] == p.ops[q]);
    }
    assert(is_part(f, t));
    part_before(f, s2, t);
    assert forall|q: int| 0 <= q < s2.ops.len() implies ((#[trigger] s2.ops[q]) matches OpView::SwitchTo(x) ==> x < q) by {
        assert(t.ops[q] == s2.ops[q]);
    }
    assert forall|q: int| 0 <= q < f.len() implies ((#[trigger] f[q]) matches OpView::AppendParam { block, ty } ==> block < base || q == block + 1) by {
        if q < w.ops.len() {
            assert(f[q] == w.ops[q]);
        }
    }
}

proof fn no_params_before(f: Seq<OpView>, b: usize, n: int)
    requires
        n <= f.len(),
        forall|p: int| 0 <= p < n ==> !execution::is_param_of(#[trigger] f[p], b),
    ensures
        execution::params_before(f, b, n) == 0,
    decreases n,
{
    if n > 0 {
        no_params_before(f, b, n - 1);
    }
}

/// A block that is gone to is entered, with its phis set to the words that came along.
proof fn block_is_entered(h: Host, f: Seq<OpView>, env: EnvView, s: PlanView, blocks: Seq<Block>, specialized: bool, first: int, base: int, k: int, ws: Seq<int>, m: Mach) -> (n: Mach)
    requires
        is_set_up(h, f, env, s, blocks, specialized, first, base),
        0 <= k < blocks.len(),
        k > 0 || specialized,
        forall|i: int| 0 <= i < blocks[k].phis@.len() ==> #[trigger] blocks[k].phis@[i] is Phi,
    ensures
        execution::reaches(h, f, Spot::To(handle(first, k), ws, m), Spot::At(inside(env, s, blocks, specialized, k).ops.len() as int, n)),
        n.vars == with_phis(m.vars, blocks[k].phis@, ws, blocks[k].phis@.len() as int),
        n.world == m.world,
        n.params == m.params,
{
    block_stands(h, f, env, s, blocks, specialized, first, base, k);
    let p = upto(env, s, blocks, specialized, k)->Ok_0;
    let block = env.blocks[blocks[k].id.0];
    assert(block == handle(first, k));
    let s1 = clif::emit(p, OpView::SwitchTo(block));
    let s2 = inside(env, s, blocks, specialized, k);
    let a = p.ops.len() as int;
    let phis = blocks[k].phis@;
    let m1 = Mach { vals: execution::given(f, block, ws, m.vals, f.len() as int), ..m };
    let n = phis_run(h, f, env, s1, block, phis, 0, m.vars, ws, m1);
    assert(s1.ops[a] == OpView::SwitchTo(block));
    assert(s2.ops[a] == s1.ops[a]);
    assert(f[a] == OpView::SwitchTo(block));
    assert forall|q: int| 0 <= q < a implies #[trigger] f[q] != OpView::SwitchTo(block) by {
        assert(f[q] == p.ops[q]);
    }
    landing_at(f, block, 0, a);
    assert forall|q: int| 0 <= q < a + 1 implies !execution::is_param_of(#[trigger] f[q], block) by {
        if q < a {
            assert(f[q] == p.ops[q]);
        }
    }
    no_params_before(f, block, a + 1);
    assert forall|q: int| 0 <= q < f.len() && execution::is_param_of(#[trigger] f[q], block) implies m1.vals[q as usize] == ws[execution::params_before(f, block, q) as int] by {
        given_at(f, block, ws, m.vals, q, f.len() as int);
    }
    assert(is_entered(f, block, ws, m1));
    reach_one(h, f, Spot::To(block, ws, m));
    reach_on(h, f, Spot::To(block, ws, m), Spot::At(a + 1, m1), Spot::At(s2.ops.len() as int, n));
    n
}

proof fn number_is_found(blocks: Seq<Block>, id: BlockId, first: int, env: EnvView)
    requires
        emission::has_block(blocks, id),
        are_made(env, blocks, first),
    ensures
        ({
            let t = execution::numbered(blocks, id);
            &&& 0 <= t < blocks.len()
            &&& blocks[t].id == id
            &&& ir::first_block(blocks, id, 0) == t
            &&& env.blocks[id.0] == handle(first, t)
        }),
{
    let t = execution::numbered(blocks, id);
    assert(exists|k: int| 0 <= k < blocks.len() && (#[trigger] blocks[k]).id == id);
    assert(0 <= t < blocks.len() && blocks[t].id == id);
    found_at(blocks, id, 0, t);
}

proof fn found_at(blocks: Seq<Block>, id: BlockId, i: int, t: int)
    requires
        0 <= i <= t < blocks.len(),
        blocks[t].id == id,
        forall|k: int| i <= k < t ==> (#[trigger] blocks[k]).id != id,
    ensures
        ir::first_block(blocks, id, i) == t,
    decreases t - i,
{
    if i < t {
        found_at(blocks, id, i + 1, t);
    }
}

/// A block is run through, to its end or out of the function.
#[verifier::spinoff_prover]
#[verifier::rlimit(40)]
proof fn block_is_run(h: Host, f: Seq<OpView>, env: EnvView, s: PlanView, blocks: Seq<Block>, specialized: bool, first: int, base: int, k: int, m: Mach) -> (r: (Seq<int>, Mach))
    requires
        is_set_up(h, f, env, s, blocks, specialized, first, base),
        0 <= k < blocks.len(),
    ensures
        ({
            let e = reading(env);
            let term = blocks[k].terminator;
            let here = Spot::At(inside(env, s, blocks, specialized, k).ops.len() as int, m);
            match execution::all_done(h, e, blocks[k].insts@, 0, m.vars, m.world) {
                Step::On(vars, w1) => match term {
                    Terminator::Return(x) => execution::reaches(h, f, here, Spot::Left(execution::value_of(h, e, vars, x), w1)),
                    Terminator::Unreachable => execution::reaches(h, f, here, Spot::Left(h.nil, w1)),
                    _ => {
                        let q = execution::numbered(blocks, next_block(h, e, term, vars)->Some_0);
                        &&& 0 <= q < blocks.len()
                        &&& execution::reaches(h, f, here, Spot::To(handle(first, q), r.0, r.1))
                        &&& r.1.vars == vars
                        &&& r.1.world == w1
                        &&& !(term is RecurJump) && are_fed(blocks[q].phis@, blocks[k].id) ==> are_brought(h, e, blocks[q].phis@, blocks[k].id, vars, r.0)
                        &&& term is RecurJump && blocks[q].phis@.len() == term->RecurJump_args@.len() ==> are_passed(h, e, blocks[q].phis@, term->RecurJump_args@, vars, r.0)
                    },
                },
                Step::Out(x, w1) => execution::reaches(h, f, here, Spot::Left(x, w1)),
                Step::Lost => true,
            }
        }),
{
    let e = reading(env);
    block_stands(h, f, env, s, blocks, specialized, first, base, k);
    let b = blocks[k];
    let p = upto(env, s, blocks, specialized, k)->Ok_0;
    let s2 = inside(env, s, blocks, specialized, k);
    let s3 = emission::insts_ops(env, s2, b.insts@, 0)->Ok_0;
    let t = emission::block_ops(env, p, b, k > 0 || specialized, blocks)->Ok_0;
    assert forall|i: int| 0 <= i < b.insts@.len() implies emission::inst_ok(#[trigger] b.insts@[i]) by {
        assert(emission::inst_ok(blocks[k].insts@[i]));
    }
    let m3 = insts_run(h, f, base, env, s2, b.insts@, 0, m);
    let (ws, m4) = term_runs(h, f, env, s3, b.terminator, b.id, blocks, m3);
    part_before(f, s3, t);
    let here = Spot::At(s2.ops.len() as int, m);
    let end = Spot::At(s3.ops.len() as int, m3);
    assert(emission::names_blocks(blocks, b.terminator));
    match execution::all_done(h, e, b.insts@, 0, m.vars, m.world) {
        Step::On(vars, w1) => match b.terminator {
            Terminator::Return(x) => reach_on(h, f, here, end, Spot::Left(execution::value_of(h, e, vars, x), w1)),
            Terminator::Unreachable => reach_on(h, f, here, end, Spot::Left(h.nil, w1)),
            _ => {
                let to = next_block(h, e, b.terminator, vars)->Some_0;
                number_is_found(blocks, to, first, env);
                reach_on(h, f, here, end, Spot::To(env.blocks[to.0], ws, m4));
            },
        },
        _ => {},
    }
    (ws, m4)
}

/// From the instructions of a block on, the machine leaves with what running the function from there
/// gives.
#[verifier::spinoff_prover]
#[verifier::rlimit(40)]
proof fn run_is_carried_out(h: Host, f: Seq<OpView>, env: EnvView, s: PlanView, blocks: Seq<Block>, specialized: bool, first: int, base: int, k: int, m: Mach, fuel: nat)
    requires
        is_set_up(h, f, env, s, blocks, specialized, first, base),
        0 <= k < blocks.len(),
        execution::run(h, reading(env), blocks, k, m.vars, m.world, fuel) is Some,
    ensures
        ({
            let (v, w) = execution::run(h, reading(env), blocks, k, m.vars, m.world, fuel)->Some_0;
            execution::reaches(h, f, Spot::At(inside(env, s, blocks, specialized, k).ops.len() as int, m), Spot::Left(v, w))
        }),
    decreases fuel,
{
    let e = reading(env);
    let (v, w) = execution::run(h, e, blocks, k, m.vars, m.world, fuel)->Some_0;
    let b = blocks[k];
    let here = Spot::At(inside(env, s, blocks, specialized, k).ops.len() as int, m);
    let (ws, m4) = block_is_run(h, f, env, s, blocks, specialized, first, base, k, m);
    match execution::all_done(h, e, b.insts@, 0, m.vars, m.world) {
        Step::On(vars, w1) => match b.terminator {
            Terminator::Return(x) => {},
            Terminator::Unreachable => {},
            _ => {
                let to = next_block(h, e, b.terminator, vars)->Some_0;
                let q = execution::numbered(blocks, to);
                let phis = blocks[q].phis@;
                if b.terminator is RecurJump {
                    passed_is_set(h, e, phis, b.terminator->RecurJump_args@, vars, ws, phis.len() as int);
                } else {
                    assert(execution::run_on(h, e, blocks, k, to, vars, w1, fuel) == Some((v, w)));
                    joined_is_fed(h, e, phis, b.id, vars, phis.len() as int);
                    brought_is_joined(h, e, phis, b.id, vars, ws, phis.len() as int);
                }
                let n = block_is_entered(h, f, env, s, blocks, specialized, first, base, q, ws, m4);
                run_is_carried_out(h, f, env, s, blocks, specialized, first, base, q, n, (fuel - 1) as nat);
                let there = Spot::To(handle(first, q), ws, m4);
                let start = Spot::At(inside(env, s, blocks, specialized, q).ops.len() as int, n);
                reach_on(h, f, here, there, start);
                reach_on(h, f, here, start, Spot::Left(v, w));
            },
        },
        _ => {},
    }
}

/// Blocks of the plan are made in order.
proof fn blocks_are_made(h: Host, f: Seq<OpView>, s: PlanView, map: Map<u32, usize>, blocks: Seq<Block>, i: int, m: Mach)
    requires
        0 <= i <= blocks.len(),
        forall|j: int, k: int| 0 <= j < k < blocks.len() ==> (#[trigger] blocks[j]).id != (#[trigger] blocks[k]).id,
    ensures
        ({
            let (t, made) = emission::create_blocks(s, map, blocks, i);
            &&& flows(h, f, s, m, t, m)
            &&& t.ops.len() == s.ops.len() + blocks.len() - i
            &&& forall|p: int| s.ops.len() <= p < t.ops.len() ==> #[trigger] t.ops[p] == OpView::CreateBlock
            &&& t.ops.len() <= usize::MAX ==> {
                &&& forall|k: int| i <= k < blocks.len() ==> made[(#[trigger] blocks[k]).id.0] == s.ops.len() + k - i
                &&& forall|k: int| 0 <= k < i ==> made[(#[trigger] blocks[k]).id.0] == map[blocks[k].id.0]
            }
        }),
    decreases blocks.len() - i,
{
    reach_self(h, f, Spot::At(s.ops.len() as int, m));
    if i < blocks.len() {
        let (s1, b) = emission::req(s, OpView::CreateBlock);
        let m1 = op_runs(h, f, s, OpView::CreateBlock, m);
        let map1 = map.insert(blocks[i].id.0, b);
        blocks_are_made(h, f, s1, map1, blocks, i + 1, m);
        let (t, made) = emission::create_blocks(s, map, blocks, i);
        if is_part(f, s1) {
            assert(m1 == m);
        } else {
            no_part_later(h, f, s, s1, m);
        }
        assert(flows(h, f, s, m, s1, m));
        chain(h, f, s, m, s1, m, t, m);
        assert forall|p: int| s.ops.len() <= p < t.ops.len() implies #[trigger] t.ops[p] == OpView::CreateBlock by {
            if p == s.ops.len() {
                assert(t.ops[p] == s1.ops[p]);
            }
        }
        if t.ops.len() <= usize::MAX {
            assert forall|k: int| i <= k < blocks.len() implies made[(#[trigger] blocks[k]).id.0] == s.ops.len() + k - i by {
                if k == i {
                    assert(made[blocks[k].id.0] == map1[blocks[k].id.0]);
                }
            }
            assert forall|k: int| 0 <= k < i implies made[(#[trigger] blocks[k]).id.0] == map[blocks[k].id.0] by {
                assert(blocks[k].id != blocks[i].id);
                assert(made[blocks[k].id.0] == map1[blocks[k].id.0]);
            }
        }
    }
}

proof fn no_part_later(h: Host, f: Seq<OpView>, s: PlanView, t: PlanView, m: Mach)
    requires
        grows(s, t),
        !is_part(f, t),
    ensures
        flows(h, f, s, m, t, m),
{
}

/// The parameters of a function are bound to its arguments.
proof fn params_run(h: Host, f: Seq<OpView>, env: EnvView, s: PlanView, entry: usize, params: Seq<(String, VarId)>, i: int, vars: Vars, m: Mach) -> (n: Mach)
    requires
        0 <= i <= params.len(),
        i <= s.ops.len(),
    ensures
        flows(h, f, s, m, emission::bind_params(env, s, entry, params, i), n),
        emission::bind_params(env, s, entry, params, i).ops.len() >= s.ops.len() + params.len() - i,
        is_part(f, emission::bind_params(env, s, entry, params, i)) && m.vars == execution::started(vars, params, m.params, i) ==> {
            &&& n.vars == execution::started(vars, params, m.params, params.len() as int)
            &&& n.params == m.params
            &&& n.world == m.world
        },
    decreases params.len() - i,
{
    reach_self(h, f, Spot::At(s.ops.len() as int, m));
    if i >= params.len() {
        m
    } else {
        let t = emission::bind_params(env, s, entry, params, i);
        let v = params[i].1;
        let s1 = emission::ensure_var(env, s, v);
        ensure_runs(h, f, env, s, v, m);
        let op = OpView::BlockParam { block: entry, index: i as usize };
        let (s2, p) = emission::req(s1, op);
        let m2 = op_runs(h, f, s1, op, m);
        let def = OpView::DefVar { var: v, value: p };
        let s3 = clif::emit(s2, def);
        let m3 = op_runs(h, f, s2, def, m2);
        let n = params_run(h, f, env, s3, entry, params, i + 1, vars, m3);
        chain(h, f, s, m, s1, m, s2, m2);
        chain(h, f, s, m, s2, m2, s3, m3);
        chain(h, f, s, m, s3, m3, t, n);
        if is_part(f, t) && m.vars == execution::started(vars, params, m.params, i) {
            assert(m3.vars == m.vars.insert(v, m.params[i]));
        }
        n
    }
}

/// The plan of a function does what the function does: carried out from its start on a fair host, with
/// the arguments as parameters, it leaves with the value that running the function gives, in the world
/// that this leaves, whatever the function was started with besides.  A branch goes the way of its
/// value, a phi takes what came from the block before, and every instruction has the word that its
/// meaning gives, as its value is kept.
pub proof fn plans_do_what_functions_do(h: Host, func: IrFunction, reprs: Map<u32, Repr>, funcs: Seq<Seq<char>>, specs: Seq<Repr>, m: Mach, fuel: nat)
    requires
        execution::is_fair(h),
        emission::function_ok(func),
        emission::function_plan(func, reprs, funcs, specs) is Ok,
        emission::function_plan(func, reprs, funcs, specs)->Ok_0.ops.len() <= usize::MAX,
        emission::function_plan(func, reprs, funcs, specs)->Ok_0.ops.len() <= i64::MAX,
        !emission::is_specialized(func, specs),
        forall|j: int, k: int| 0 <= j < k < func.blocks@.len() ==> (#[trigger] func.blocks@[j]).id != (#[trigger] func.blocks@[k]).id,
        func.blocks@[0].phis@.len() == 0,
        execution::run(h, (Reading { reprs, pins: ir::texts_view(func.pins@) }), func.blocks@, 0, execution::started(m.vars, func.params@, m.params, func.params@.len() as int), m.world, fuel) is Some,
    ensures
        ({
            let f = emission::function_plan(func, reprs, funcs, specs)->Ok_0.ops;
            let e = Reading { reprs, pins: ir::texts_view(func.pins@) };
            let (v, w) = execution::run(h, e, func.blocks@, 0, execution::started(m.vars, func.params@, m.params, func.params@.len() as int), m.world, fuel)->Some_0;
            execution::reaches(h, f, Spot::At(0, m), Spot::Left(v, w))
        }),
{
    let blocks = func.blocks@;
    let f = emission::function_plan(func, reprs, funcs, specs)->Ok_0.ops;
    let pins = ir::texts_view(func.pins@);
    let s0 = emission::empty_plan();
    let (s2, map) = emission::create_blocks(s0, Map::empty(), blocks, 0);
    let base = s2.ops.len() as int;
    let env0 = EnvView { reprs, funcs, blocks: map, region: None, pins };
    let (s3, region) = emission::entry_ops(env0, s2, func, specs, 0usize);
    let env = EnvView { reprs, funcs, blocks: map, region, pins };
    let t = emission::blocks_ops(env, s3, blocks, false, 0)->Ok_0;
    assert(f == t.ops.push(OpView::SealAll));
    let entry = map[blocks[0].id.0];
    blocks_are_made(h, f, s0, Map::empty(), blocks, 0, m);
    let a1 = clif::emit(s2, OpView::SwitchTo(entry));
    let a2 = clif::emit(a1, OpView::FunctionParams(entry));
    let m2 = op_runs(h, f, a1, OpView::FunctionParams(entry), m);
    let a3 = emission::bind_params(env0, a2, entry, func.params@, 0);
    let m3 = params_run(h, f, env0, a2, entry, func.params@, 0, m.vars, m2);
    let (a4, region_) = emission::region_param(a3, func, entry);
    let m4 = region_runs(h, f, a3, func, entry, m3);
    let m5 = void_runs(h, f, a4, RtFn::Safepoint, Seq::empty(), m4);
    assert(s3 == emission::call_rt_void(a4, RtFn::Safepoint, Seq::empty()));
    chain(h, f, a1, m, a2, m2, a3, m3);
    chain(h, f, a1, m, a3, m3, a4, m4);
    chain(h, f, a1, m, a4, m4, s3, m5);
    assert(s2.ops.len() == blocks.len());
    assert(a1.ops[base] == OpView::SwitchTo(entry));
    blocks_are_longer(h, env, s3, blocks, false, 0);
    assert(s3.ops.len() <= f.len());
    assert(is_orderly(s3, 0, base, 1)) by {
        assert forall|p: int| 0 <= p < s3.ops.len() implies match #[trigger] s3.ops[p] {
            OpView::SwitchTo(x) => x < p && (x >= base || 0 <= x < 0 + 1 || x < 0),
            OpView::AppendParam { block, ty } => block >= base && p == block + 1 || 0 <= block < 0 + 1,
            _ => true,
        } by {
            if p < a1.ops.len() {
                assert(s3.ops[p] == a1.ops[p]);
                if p < base {
                    assert(a1.ops[p] == s2.ops[p]);
                    assert(s2.ops[p] == OpView::CreateBlock);
                }
            } else {
                assert(is_inward(s3.ops[p], a1.ops.len() as int, p));
            }
        }
    }
    assert(are_made(env, blocks, 0));
    assert(is_set_up(h, f, env, s3, blocks, false, 0, base));
    block_stands(h, f, env, s3, blocks, false, 0, base, 0);
    assert(is_part(f, s3));
    part_before(f, a1, s3);
    assert(is_part(f, s2)) by {
        assert forall|p: int| 0 <= p < s2.ops.len() implies #[trigger] f[p] == s2.ops[p] by {
            assert(a1.ops[p] == s2.ops[p]);
        }
    }
    part_before(f, a2, s3);
    part_before(f, a3, s3);
    part_before(f, a4, s3);
    assert(f[base] == OpView::SwitchTo(entry));
    reach_one(h, f, Spot::At(base, m));
    reach_on(h, f, Spot::At(0, m), Spot::At(base, m), Spot::At(base + 1, m));
    reach_on(h, f, Spot::At(0, m), Spot::At(base + 1, m), Spot::At(s3.ops.len() as int, m5));
    assert(execution::words(m4, Seq::empty()) =~= Seq::<int>::empty());
    assert(inside(env, s3, blocks, false, 0) == s3);
    assert(reading(env) == (Reading { reprs, pins }));
    run_is_carried_out(h, f, env, s3, blocks, false, 0, base, 0, m5, fuel);
    let (v, w) = execution::run(h, reading(env), blocks, 0, m5.vars, m5.world, fuel)->Some_0;
    reach_on(h, f, Spot::At(0, m), Spot::At(s3.ops.len() as int, m5), Spot::Left(v, w));
}

proof fn region_runs(h: Host, f: Seq<OpView>, s: PlanView, func: IrFunction, entry: usize, m: Mach) -> (n: Mach)
    ensures
        flows(h, f, s, m, emission::region_param(s, func, entry).0, n),
        is_part(f, emission::region_param(s, func, entry).0) ==> n.vars == m.vars && n.params == m.params && n.world == m.world,
{
    reach_self(h, f, Spot::At(s.ops.len() as int, m));
    if func.spec_takes_region_param() {
        op_runs(h, f, s, OpView::BlockParam { block: entry, index: func.params@.len() as usize }, m)
    } else {
        m
    }
}

proof fn blocks_are_longer(h: Host, env: EnvView, s: PlanView, blocks: Seq<Block>, specialized: bool, i: int)
    requires
        execution::is_fair(h),
        0 <= i <= blocks.len(),
        emission::blocks_ops(env, s, blocks, specialized, i) is Ok,
        forall|j: int, i: int| 0 <= j < blocks.len() && 0 <= i < blocks[j].insts@.len() ==> emission::inst_ok(#[trigger] blocks[j].insts@[i]),
    ensures
        s.ops.len() <= emission::blocks_ops(env, s, blocks, specialized, i)->Ok_0.ops.len(),
    decreases blocks.len() - i,
{
    if i < blocks.len() {
        assert forall|k: int| 0 <= k < blocks[i].insts@.len() implies emission::inst_ok(#[trigger] blocks[i].insts@[k]) by {}
        block_is_longer(h, env, s, blocks[i], i > 0 || specialized, blocks);
        blocks_are_longer(h, env, emission::block_ops(env, s, blocks[i], i > 0 || specialized, blocks)->Ok_0, blocks, specialized, i + 1);
    }
}

/// The guard of a parameter that is asked for as a number.
proof fn guard_runs(h: Host, f: Seq<OpView>, base: int, env: EnvView, s: PlanView, raw: usize, deopt: usize, r: Repr, v: VarId, m: Mach) -> (n: Mach)
    requires
        r is Long || r is Double,
    ensures
        ({
            let (s2, tag) = emission::call_rt(s, RtFn::ValueTag, seq![raw]);
            let (s3, ok) = emission::req(s2, OpView::IntTestImm { cond: IntCond::Equal, a: tag, imm: emission::guard_tag(r) });
            let (s4, cont) = emission::req(s3, OpView::CreateBlock);
            let s5 = clif::emit(s4, OpView::Brif { cond: ok, then_block: cont, then_args: Seq::empty(), else_block: deopt, else_args: Seq::empty() });
            let s6 = clif::emit(s5, OpView::SwitchTo(cont));
            let (s7, x) = emission::call_rt(s6, if r == Repr::Long { RtFn::UnboxLong } else { RtFn::UnboxDouble }, seq![raw]);
            let t = emission::define(env, s7, v, x);
            let y = m.vals[raw];
            let kind = (h.rt)(RtFn::ValueTag, seq![y], m.world).0;
            let number = (h.rt)(if r is Long { RtFn::UnboxLong } else { RtFn::UnboxDouble }, seq![y], m.world).0;
            &&& grows(s, t)
            &&& is_fine(f, base, s, t) && execution::tells_kinds(h) && raw < s.ops.len() ==> {
                &&& n.params == m.params
                &&& n.world == m.world
                &&& kind == (if r is Long { 1int } else { 2int }) ==> {
                    &&& execution::reaches(h, f, Spot::At(s.ops.len() as int, m), Spot::At(t.ops.len() as int, n))
                    &&& n.vars == m.vars.insert(v, number)
                }
                &&& kind != (if r is Long { 1int } else { 2int }) ==> execution::reaches(h, f, Spot::At(s.ops.len() as int, m), Spot::To(deopt, Seq::empty(), n))
            }
        }),
{
    let at = s.ops.len() as int;
    let (s2, tag) = emission::call_rt(s, RtFn::ValueTag, seq![raw]);
    let m2 = call_runs(h, f, s, RtFn::ValueTag, seq![raw], m);
    let test = OpView::IntTestImm { cond: IntCond::Equal, a: tag, imm: emission::guard_tag(r) };
    let (s3, ok) = emission::req(s2, test);
    let m3 = op_runs(h, f, s2, test, m2);
    let (s4, cont) = emission::req(s3, OpView::CreateBlock);
    let m4 = op_runs(h, f, s3, OpView::CreateBlock, m3);
    let brif = OpView::Brif { cond: ok, then_block: cont, then_args: Seq::empty(), else_block: deopt, else_args: Seq::empty() };
    let s5 = clif::emit(s4, brif);
    let s6 = clif::emit(s5, OpView::SwitchTo(cont));
    let rt = if r == Repr::Long { RtFn::UnboxLong } else { RtFn::UnboxDouble };
    let (s7, x) = emission::call_rt(s6, rt, seq![raw]);
    let t = emission::define(env, s7, v, x);
    chain(h, f, s, m, s2, m2, s3, m3);
    chain(h, f, s, m, s3, m3, s4, m4);
    leap_on(h, f, s, m, s4, m4, brif);
    let m7 = call_runs(h, f, s6, rt, seq![raw], m4);
    let n = define_runs(h, f, env, s7, v, x, m7);
    chain(h, f, s6, m4, s7, m7, t, n);
    assert(s6.ops.len() == at + 6);
    assert(s6.ops[at + 4] == brif && s6.ops[at + 5] == OpView::SwitchTo(cont) && s6.ops[at + 3] == OpView::CreateBlock);
    assert(s6.ops[at] is ImportRt && s6.ops[at + 1] is Call && s6.ops[at + 2] == test);
    assert forall|p: int| 0 <= p < at implies #[trigger] t.ops[p] == s.ops[p] by {
        assert(s6.ops[p] == s.ops[p]);
    }
    if t.ops.len() <= usize::MAX {
        assert forall|p: int| at <= p < t.ops.len() implies is_inward(#[trigger] t.ops[p], at, p) by {
            if p < s6.ops.len() {
                assert(t.ops[p] == s6.ops[p]);
                assert(p == at || p == at + 1 || p == at + 2 || p == at + 3 || p == at + 4 || p == at + 5);
            } else {
                assert(is_inward(t.ops[p], s6.ops.len() as int, p));
            }
        }
    }
    let y = m.vals[raw];
    let kind = (h.rt)(RtFn::ValueTag, seq![y], m.world).0;
    let wanted: int = if r is Long { 1 } else { 2 };
    if is_fine(f, base, s, t) && execution::tells_kinds(h) && raw < s.ops.len() {
        part_before(f, s6, t);
        part_before(f, s7, t);
        part_before(f, s, t);
        assert(is_part(f, s5)) by {
            assert forall|p: int| 0 <= p < s5.ops.len() implies #[trigger] f[p] == s5.ops[p] by {
                assert(s6.ops[p] == s5.ops[p]);
            }
        }
        part_before(f, s3, s4);
        part_before(f, s2, s3);
        assert(execution::words(m, seq![raw]) =~= seq![y]);
        assert(execution::words(m4, seq![raw]) =~= seq![y]);
        assert(m4.vals[ok] == execution::flag(kind == wanted));
        assert(m4.world == m.world && m4.vars == m.vars && m4.params == m.params);
        let none = execution::words(m4, Seq::empty());
        assert(none =~= Seq::<int>::empty());
        if kind == wanted {
            assert(f[at + 5] == OpView::SwitchTo(cont));
            assert(f[cont + 1] == brif);
            assert forall|q: int| at <= q < at + 5 implies #[trigger] f[q] != OpView::SwitchTo(cont) by {
                assert(f[q] == s6.ops[q]);
                assert(q == at || q == at + 1 || q == at + 2 || q == at + 3 || q == at + 4);
            }
            inner_landing(h, f, base, s, cont, at + 5, none, m4);
            reach_on(h, f, Spot::At(at, m), Spot::To(cont, none, m4), Spot::At(at + 6, m4));
            reach_on(h, f, Spot::At(at, m), Spot::At(at + 6, m4), Spot::At(t.ops.len() as int, n));
        }
    }
    if kind == wanted { n } else { m4 }
}

/// The parameters of a function are guarded, taken out of their boxes where numbers are asked for, and
/// bound.
proof fn guards_run(h: Host, f: Seq<OpView>, base: int, env: EnvView, s: PlanView, prologue: usize, deopt: usize, params: Seq<(String, VarId)>, specs: Seq<Repr>, i: int, vars: Vars, m: Mach) -> (n: Mach)
    requires
        0 <= i <= params.len(),
        i <= s.ops.len(),
    ensures
        ({
            let t = emission::guard_params(env, s, prologue, deopt, params, specs, i);
            let l = params.len() as int;
            &&& grows(s, t)
            &&& is_fine(f, base, s, t) && execution::tells_kinds(h) && execution::guarded(h, params, specs, m.params, vars, m.world, i) == Some(m.vars) ==> {
                &&& n.params == m.params
                &&& n.world == m.world
                &&& match execution::guarded(h, params, specs, m.params, vars, m.world, l) {
                    Some(set) => execution::reaches(h, f, Spot::At(s.ops.len() as int, m), Spot::At(t.ops.len() as int, n)) && n.vars == set,
                    None => execution::reaches(h, f, Spot::At(s.ops.len() as int, m), Spot::To(deopt, Seq::empty(), n)),
                }
            }
        }),
    decreases params.len() - i,
{
    reach_self(h, f, Spot::At(s.ops.len() as int, m));
    if i >= params.len() {
        m
    } else {
        let t = emission::guard_params(env, s, prologue, deopt, params, specs, i);
        let l = params.len() as int;
        let v = params[i].1;
        let r = emission::spec_at(specs, i);
        let op = OpView::BlockParam { block: prologue, index: i as usize };
        let (s1, raw) = emission::req(s, op);
        let m1 = op_runs(h, f, s, op, m);
        if r == Repr::Long || r == Repr::Double {
            let (s2, tag) = emission::call_rt(s1, RtFn::ValueTag, seq![raw]);
            let (s3, ok) = emission::req(s2, OpView::IntTestImm { cond: IntCond::Equal, a: tag, imm: emission::guard_tag(r) });
            let (s4, cont) = emission::req(s3, OpView::CreateBlock);
            let s5 = clif::emit(s4, OpView::Brif { cond: ok, then_block: cont, then_args: Seq::empty(), else_block: deopt, else_args: Seq::empty() });
            let s6 = clif::emit(s5, OpView::SwitchTo(cont));
            let (s7, x) = emission::call_rt(s6, if r == Repr::Long { RtFn::UnboxLong } else { RtFn::UnboxDouble }, seq![raw]);
            let s8 = emission::define(env, s7, v, x);
            let m8 = guard_runs(h, f, base, env, s1, raw, deopt, r, v, m1);
            let n = guards_run(h, f, base, env, s8, prologue, deopt, params, specs, i + 1, vars, m8);
            grow_on(s, s1, s8);
            grow_on(s, s8, t);
            if is_fine(f, base, s, t) && execution::tells_kinds(h) && execution::guarded(h, params, specs, m.params, vars, m.world, i) == Some(m.vars) {
                part_before(f, s8, t);
                part_before(f, s1, s8);
                sane_on(s, s1);
                sane_on(s, s8);
                assert(m1.vals[raw] == m.params[i]);
                let kind = (h.rt)(RtFn::ValueTag, seq![m.params[i]], m.world).0;
                if kind == (if r is Long { 1int } else { 2int }) {
                    assert(execution::guarded(h, params, specs, m.params, vars, m.world, i + 1) == Some(m8.vars));
                    reach_on(h, f, Spot::At(s.ops.len() as int, m), Spot::At(s1.ops.len() as int, m1), Spot::At(s8.ops.len() as int, m8));
                    match execution::guarded(h, params, specs, m.params, vars, m.world, l) {
                        Some(set) => reach_on(h, f, Spot::At(s.ops.len() as int, m), Spot::At(s8.ops.len() as int, m8), Spot::At(t.ops.len() as int, n)),
                        None => reach_on(h, f, Spot::At(s.ops.len() as int, m), Spot::At(s8.ops.len() as int, m8), Spot::To(deopt, Seq::empty(), n)),
                    }
                    n
                } else {
                    assert(execution::guarded(h, params, specs, m.params, vars, m.world, i + 1) is None);
                    refused_stays(h, params, specs, m.params, vars, m.world, i + 1, l);
                    reach_on(h, f, Spot::At(s.ops.len() as int, m), Spot::At(s1.ops.len() as int, m1), Spot::To(deopt, Seq::empty(), m8));
                    m8
                }
            } else {
                n
            }
        } else {
            let s2 = emission::define(env, s1, v, raw);
            let m2 = define_runs(h, f, env, s1, v, raw, m1);
            chain(h, f, s, m, s1, m1, s2, m2);
            let n = guards_run(h, f, base, env, s2, prologue, deopt, params, specs, i + 1, vars, m2);
            grow_on(s, s2, t);
            if is_fine(f, base, s, t) && execution::tells_kinds(h) && execution::guarded(h, params, specs, m.params, vars, m.world, i) == Some(m.vars) {
                part_before(f, s2, t);
                part_before(f, s1, s2);
                sane_on(s, s2);
                assert(m1.vals[raw] == m.params[i]);
                assert(execution::guarded(h, params, specs, m.params, vars, m.world, i + 1) == Some(m2.vars));
                match execution::guarded(h, params, specs, m.params, vars, m.world, l) {
                    Some(set) => reach_on(h, f, Spot::At(s.ops.len() as int, m), Spot::At(s2.ops.len() as int, m2), Spot::At(t.ops.len() as int, n)),
                    None => reach_on(h, f, Spot::At(s.ops.len() as int, m), Spot::At(s2.ops.len() as int, m2), Spot::To(deopt, Seq::empty(), n)),
                }
            }
            n
        }
    }
}

proof fn refused_stays(h: Host, params: Seq<(String, VarId)>, specs: Seq<Repr>, args: Seq<int>, vars: Vars, w: int, k: int, n: int)
    requires
        k <= n,
        execution::guarded(h, params, specs, args, vars, w, k) is None,
    ensures
        execution::guarded(h, params, specs, args, vars, w, n) is None,
    decreases n,
{
    if k < n {
        refused_stays(h, params, specs, args, vars, w, k, n - 1);
    }
}

/// The plan of a function whose parameters are asked for as numbers does what the function does where
/// its arguments are the numbers that are asked for, with those as the words of its parameters; where
/// one is not, it leaves with what the bridge gives for that.
#[verifier::rlimit(40)]
pub proof fn guarded_plans_do_what_functions_do(h: Host, func: IrFunction, reprs: Map<u32, Repr>, funcs: Seq<Seq<char>>, specs: Seq<Repr>, m: Mach, fuel: nat)
    requires
        execution::is_fair(h),
        execution::tells_kinds(h),
        emission::function_ok(func),
        emission::function_plan(func, reprs, funcs, specs) is Ok,
        emission::function_plan(func, reprs, funcs, specs)->Ok_0.ops.len() <= usize::MAX,
        emission::function_plan(func, reprs, funcs, specs)->Ok_0.ops.len() <= i64::MAX,
        emission::is_specialized(func, specs),
        forall|j: int, k: int| 0 <= j < k < func.blocks@.len() ==> (#[trigger] func.blocks@[j]).id != (#[trigger] func.blocks@[k]).id,
        func.blocks@[0].phis@.len() == 0,
    ensures
        ({
            let f = emission::function_plan(func, reprs, funcs, specs)->Ok_0.ops;
            let e = Reading { reprs, pins: ir::texts_view(func.pins@) };
            match execution::guarded(h, func.params@, specs, m.params, m.vars, m.world, func.params@.len() as int) {
                Some(vars) => execution::run(h, e, func.blocks@, 0, vars, m.world, fuel) matches Some((v, w)) ==> execution::reaches(h, f, Spot::At(0, m), Spot::Left(v, w)),
                None => {
                    let (v, w) = (h.rt)(RtFn::Deopt, Seq::empty(), m.world);
                    execution::reaches(h, f, Spot::At(0, m), Spot::Left(v, w))
                },
            }
        }),
{
    let blocks = func.blocks@;
    let f = emission::function_plan(func, reprs, funcs, specs)->Ok_0.ops;
    let pins = ir::texts_view(func.pins@);
    let s0 = emission::empty_plan();
    let (s1, prologue) = emission::req(s0, OpView::CreateBlock);
    let m1 = op_runs(h, f, s0, OpView::CreateBlock, m);
    let (s2, map) = emission::create_blocks(s1, Map::empty(), blocks, 0);
    blocks_are_made(h, f, s1, Map::empty(), blocks, 0, m);
    let base = s2.ops.len() as int;
    let env0 = EnvView { reprs, funcs, blocks: map, region: None, pins };
    let (s3, region) = emission::entry_ops(env0, s2, func, specs, prologue);
    let env = EnvView { reprs, funcs, blocks: map, region, pins };
    let t = emission::blocks_ops(env, s3, blocks, true, 0)->Ok_0;
    assert(f == t.ops.push(OpView::SealAll));
    let entry = map[blocks[0].id.0];
    let a1 = clif::emit(s2, OpView::SwitchTo(prologue));
    let a2 = clif::emit(a1, OpView::FunctionParams(prologue));
    let (a3, deopt) = emission::req(a2, OpView::CreateBlock);
    let a4 = emission::guard_params(env0, a3, prologue, deopt, func.params@, specs, 0);
    let (a5, region_) = emission::region_param(a4, func, prologue);
    let a6 = emission::call_rt_void(a5, RtFn::Safepoint, Seq::empty());
    let jump = OpView::Jump { block: entry, args: Seq::empty() };
    let a7 = clif::emit(a6, jump);
    let a8 = clif::emit(a7, OpView::SwitchTo(deopt));
    let (a9, sentinel) = emission::call_rt(a8, RtFn::Deopt, Seq::empty());
    assert(s3 == clif::emit(a9, OpView::Return(sentinel)));
    let n2 = op_runs(h, f, a1, OpView::FunctionParams(prologue), m);
    let n3 = op_runs(h, f, a2, OpView::CreateBlock, m);
    let n4 = guards_run(h, f, base, env0, a3, prologue, deopt, func.params@, specs, 0, m.vars, m);
    let n5 = region_runs(h, f, a4, func, prologue, n4);
    let n6 = void_runs(h, f, a5, RtFn::Safepoint, Seq::empty(), n5);
    leap(h, f, a6, jump, n6);
    let n9 = call_runs(h, f, a8, RtFn::Deopt, Seq::empty(), n4);
    leap(h, f, a9, OpView::Return(sentinel), n9);
    grow_on(a3, a4, a5);
    grow_on(a3, a5, a6);
    grow_on(a3, a6, a7);
    grow_on(a8, a9, s3);
    assert(a1.ops[base] == OpView::SwitchTo(prologue));
    assert(a2.ops[base + 1] == OpView::FunctionParams(prologue) && a3.ops[base + 2] == OpView::CreateBlock);
    let j = a6.ops.len() as int;
    assert(a8.ops[j] == jump && a8.ops[j + 1] == OpView::SwitchTo(deopt));
    blocks_are_longer(h, env, s3, blocks, true, 0);
    assert forall|p: int| 0 <= p < a3.ops.len() implies #[trigger] s3.ops[p] == a3.ops[p] by {
        assert(a7.ops[p] == a3.ops[p]);
        assert(a8.ops[p] == a7.ops[p]);
    }
    assert forall|p: int| a3.ops.len() <= p < a7.ops.len() implies #[trigger] s3.ops[p] == a7.ops[p] by {
        assert(a8.ops[p] == a7.ops[p]);
    }
    assert(s3.ops[j + 1] == a8.ops[j + 1]);
    assert(is_orderly(s3, 1, base, 0)) by {
        assert forall|p: int| 0 <= p < s3.ops.len() implies match #[trigger] s3.ops[p] {
            OpView::SwitchTo(x) => x < p && (x >= base || 1 <= x < 1 + 0 || x < 1),
            OpView::AppendParam { block, ty } => block >= base && p == block + 1 || 1 <= block < 1 + 0,
            _ => true,
        } by {
            if p < a3.ops.len() {
                assert(s3.ops[p] == a3.ops[p]);
                if p < base {
                    assert(a3.ops[p] == s2.ops[p]);
                    assert(s2.ops[p] == OpView::CreateBlock) by {
                        if p == 0 {
                            assert(s2.ops[0] == s1.ops[0]);
                        }
                    }
                } else {
                    assert(p == base || p == base + 1 || p == base + 2);
                }
            } else if p < a7.ops.len() {
                assert(is_inward(a7.ops[p], a3.ops.len() as int, p));
            } else if p == j + 1 {
            } else {
                assert(is_inward(s3.ops[p], a8.ops.len() as int, p));
            }
        }
    }
    assert(are_made(env, blocks, 1));
    assert(is_set_up(h, f, env, s3, blocks, true, 1, base));
    block_stands(h, f, env, s3, blocks, true, 1, base, 0);
    assert(is_part(f, s3));
    assert(is_part(f, a7)) by {
        assert forall|p: int| 0 <= p < a7.ops.len() implies #[trigger] f[p] == a7.ops[p] by {
            if p < a3.ops.len() {
                assert(a7.ops[p] == a3.ops[p]);
            }
            assert(s3.ops[p] == a7.ops[p]);
        }
    }
    part_before(f, a6, a7);
    part_before(f, a5, a7);
    part_before(f, a4, a7);
    part_before(f, a3, a7);
    assert(is_part(f, s2)) by {
        assert forall|p: int| 0 <= p < s2.ops.len() implies #[trigger] f[p] == s2.ops[p] by {
            assert(a3.ops[p] == s2.ops[p]);
        }
    }
    part_before(f, s1, s2);
    assert(m1 == m);
    assert(f[base] == a3.ops[base] && f[base + 1] == a3.ops[base + 1] && f[base + 2] == a3.ops[base + 2]);
    reach_on(h, f, Spot::At(0, m), Spot::At(1, m), Spot::At(base, m));
    reach_one(h, f, Spot::At(base, m));
    reach_one(h, f, Spot::At(base + 1, m));
    reach_one(h, f, Spot::At(base + 2, m));
    reach_on(h, f, Spot::At(0, m), Spot::At(base, m), Spot::At(base + 1, m));
    reach_on(h, f, Spot::At(0, m), Spot::At(base + 1, m), Spot::At(base + 2, m));
    reach_on(h, f, Spot::At(0, m), Spot::At(base + 2, m), Spot::At(base + 3, m));
    assert(is_sane(a3)) by {
        assert forall|p: int| 0 <= p < a3.ops.len() implies ((#[trigger] a3.ops[p]) matches OpView::SwitchTo(b) ==> b < p) by {
            assert(s3.ops[p] == a3.ops[p]);
        }
    }
    assert(execution::words(n5, Seq::empty()) =~= Seq::<int>::empty());
    assert(execution::words(n4, Seq::empty()) =~= Seq::<int>::empty());
    let none: Seq<int> = Seq::empty();
    match execution::guarded(h, func.params@, specs, m.params, m.vars, m.world, func.params@.len() as int) {
        Some(vars) => {
            assert(f[j] == jump);
            let start = Spot::At(0, m);
            reach_on(h, f, start, Spot::At(base + 3, m), Spot::At(a4.ops.len() as int, n4));
            reach_on(h, f, start, Spot::At(a4.ops.len() as int, n4), Spot::At(a5.ops.len() as int, n5));
            reach_on(h, f, start, Spot::At(a5.ops.len() as int, n5), Spot::At(j, n6));
            assert(execution::words(n6, Seq::empty()) =~= none);
            reach_one(h, f, Spot::At(j, n6));
            reach_on(h, f, start, Spot::At(j, n6), Spot::To(entry, none, n6));
            let n7 = block_is_entered(h, f, env, s3, blocks, true, 1, base, 0, none, n6);
            let inner = Spot::At(inside(env, s3, blocks, true, 0).ops.len() as int, n7);
            reach_on(h, f, start, Spot::To(entry, none, n6), inner);
            assert(reading(env) == (Reading { reprs, pins }));
            if let Some((v, w)) = execution::run(h, reading(env), blocks, 0, vars, m.world, fuel) {
                run_is_carried_out(h, f, env, s3, blocks, true, 1, base, 0, n7, fuel);
                reach_on(h, f, start, inner, Spot::Left(v, w));
            }
        },
        None => {
            let start = Spot::At(0, m);
            reach_on(h, f, start, Spot::At(base + 3, m), Spot::To(deopt, none, n4));
            part_before_switch(f, a2, a3);
            assert(f[j + 1] == OpView::SwitchTo(deopt));
            assert forall|q: int| a2.ops.len() <= q < j + 1 implies #[trigger] f[q] != OpView::SwitchTo(deopt) by {
                if q == a2.ops.len() {
                    assert(f[q] == a3.ops[q]);
                } else if q < a7.ops.len() {
                    assert(f[q] == a7.ops[q]);
                    assert(is_inward(a7.ops[q], a3.ops.len() as int, q));
                }
            }
            assert(deopt == a2.ops.len());
            assert(!(f[deopt + 1] is AppendParam)) by {
                assert(f[deopt + 1] == a7.ops[deopt + 1]);
                assert(is_inward(a7.ops[deopt + 1], a3.ops.len() as int, deopt + 1));
            }
            inner_landing(h, f, base, a2, deopt, j + 1, none, n4);
            reach_on(h, f, start, Spot::To(deopt, none, n4), Spot::At(j + 2, n4));
            assert(is_part(f, a9)) by {
                assert forall|p: int| 0 <= p < a9.ops.len() implies #[trigger] f[p] == a9.ops[p] by {
                    assert(s3.ops[p] == a9.ops[p]);
                }
            }
            reach_on(h, f, start, Spot::At(j + 2, n4), Spot::At(a9.ops.len() as int, n9));
            let (v, w) = (h.rt)(RtFn::Deopt, Seq::empty(), m.world);
            reach_on(h, f, start, Spot::At(a9.ops.len() as int, n9), Spot::Left(v, w));
        },
    }
}

proof fn part_before_switch(f: Seq<OpView>, a2: PlanView, a3: PlanView)
    requires
        is_part(f, a3),
        a2.ops.len() < a3.ops.len(),
        forall|p: int| 0 <= p < a2.ops.len() ==> #[trigger] a3.ops[p] == a2.ops[p],
        is_sane(a3),
    ensures
        is_part(f, a2),
        is_sane(a2),
{
    assert forall|p: int| 0 <= p < a2.ops.len() implies #[trigger] f[p] == a2.ops[p] by {
        assert(a3.ops[p] == a2.ops[p]);
    }
    assert forall|p: int| 0 <= p < a2.ops.len() implies ((#[trigger] a2.ops[p]) matches OpView::SwitchTo(b) ==> b < p) by {
        assert(a3.ops[p] == a2.ops[p]);
    }
}

} // verus!
