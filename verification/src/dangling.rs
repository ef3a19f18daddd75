//! What a function is blamed for, said of its instructions: what it makes and hands out, stores, or
//! uses again.
use crate::escape;
use crate::escape::ViolationView;
use crate::ir;
use crate::ir::{Block, Inst, IrFunction, KnownFn, Terminator, VarId};
use vstd::prelude::*;

verus! {

/// The instruction makes a new collection or closure.
pub open spec fn is_allocation(inst: Inst) -> bool {
    ||| inst is AllocVector
    ||| inst is AllocMap
    ||| inst is AllocSet
    ||| inst is AllocList
    ||| inst is AllocCons
    ||| inst is AllocClosure
    ||| inst is RegionAlloc
}

/// The instruction stands in the function, behind the phis of a block.
pub open spec fn has_inst(func: IrFunction, inst: Inst) -> bool {
    exists|b: int, i: int| 0 <= b < func.blocks@.len() && 0 <= i < func.blocks@[b].insts@.len() && #[trigger] func.blocks@[b].insts@[i] == inst
}

/// The instruction stands among the phis of a block of the function.
pub open spec fn has_phi(func: IrFunction, inst: Inst) -> bool {
    exists|b: int, i: int| 0 <= b < func.blocks@.len() && 0 <= i < func.blocks@[b].phis@.len() && #[trigger] func.blocks@[b].phis@[i] == inst
}

/// The instruction stands in the function.
pub open spec fn has(func: IrFunction, inst: Inst) -> bool {
    has_inst(func, inst) || has_phi(func, inst)
}

/// The function makes the value: it is the destination of an instruction that makes something new.
pub open spec fn makes(func: IrFunction, v: VarId) -> bool {
    exists|inst: Inst| #[trigger] has(func, inst) && is_allocation(inst) && inst.spec_dst() == Some(v)
}

/// A phi of the function takes the value `input` on one of its ways.
pub open spec fn takes(func: IrFunction, phi: VarId, input: VarId) -> bool {
    exists|inst: Inst| #[trigger] has_phi(func, inst) && takes_input(inst, phi, input)
}

/// The instruction is the phi `phi`, and takes `input` on one of its ways.
pub open spec fn takes_input(inst: Inst, phi: VarId, input: VarId) -> bool {
    match inst {
        Inst::Phi(d, es) => d == phi && exists|k: int| 0 <= k < es@.len() && (#[trigger] es@[k]).1 == input,
        _ => false,
    }
}

/// `way` goes from phis to inputs.
pub open spec fn is_way(func: IrFunction, way: Seq<VarId>) -> bool {
    way.len() > 0 && forall|k: int| 0 <= k < way.len() - 1 ==> takes(func, #[trigger] way[k], way[k + 1])
}

/// The value is one that the function makes, itself or through phis.
pub open spec fn is_made(func: IrFunction, v: VarId) -> bool {
    exists|way: Seq<VarId>| #[trigger] is_way(func, way) && way[0] == v && makes(func, way.last())
}

/// A block of the function returns the value.
pub open spec fn is_returned(func: IrFunction, v: VarId) -> bool {
    exists|b: int| 0 <= b < func.blocks@.len() && (#[trigger] func.blocks@[b]).terminator == Terminator::Return(v)
}

/// The instruction stores the value where it outlives the function: in a variable of the program, or in
/// an atom, which `swap!` is handed further arguments for.
pub open spec fn stores(inst: Inst, v: VarId) -> bool {
    match inst {
        Inst::DefVar(_, _, _, x) => x == v,
        Inst::SetBang(_, x) => x == v,
        Inst::CallKnown(_, kf, args) => {
            ||| kf == KnownFn::AtomReset && args@.len() >= 2 && args@[1] == v
            ||| kf == KnownFn::AtomSwap && exists|k: int| 2 <= k < args@.len() && #[trigger] args@[k] == v
        },
        _ => false,
    }
}

/// The function stores the value where it outlives the function.
pub open spec fn is_stored(func: IrFunction, v: VarId) -> bool {
    exists|inst: Inst| #[trigger] has_inst(func, inst) && stores(inst, v)
}

/// The function makes the value, and it is a closure.
pub open spec fn makes_closure(func: IrFunction, v: VarId) -> bool {
    exists|inst: Inst| #[trigger] has(func, inst) && inst is AllocClosure && inst.spec_dst() == Some(v)
}

/// The functions whose result is made only as far as it is looked at.
pub open spec fn is_lazy_function(kf: KnownFn) -> bool {
    ||| kf == KnownFn::LazySeq || kf == KnownFn::Cons || kf == KnownFn::Rest || kf == KnownFn::Next
    ||| kf == KnownFn::MapSeq || kf == KnownFn::Filter || kf == KnownFn::Keep || kf == KnownFn::Remove
    ||| kf == KnownFn::Concat || kf == KnownFn::Take || kf == KnownFn::Drop
    ||| kf == KnownFn::Range1 || kf == KnownFn::Range2 || kf == KnownFn::Range3
}

/// The value is what one of those functions yields.
pub open spec fn is_lazy(func: IrFunction, v: VarId) -> bool {
    exists|inst: Inst| #[trigger] has_inst(func, inst) && inst is CallKnown && is_lazy_function(inst->CallKnown_1) && inst.spec_dst() == Some(v)
}

/// The values that an instruction reads, each as often as it does.
pub open spec fn operands(inst: Inst) -> Seq<VarId> {
    match inst {
        Inst::AllocVector(_, vs) | Inst::AllocSet(_, vs) | Inst::AllocList(_, vs) => vs@,
        Inst::AllocMap(_, ps) => ps@.map_values(|p: (VarId, VarId)| p.0) + ps@.map_values(|p: (VarId, VarId)| p.1),
        Inst::AllocCons(_, a, b) => seq![a, b],
        Inst::AllocClosure(_, _, vs) => vs@,
        Inst::CallKnown(_, _, vs) => vs@,
        Inst::CallDirect(_, _, vs) => vs@,
        Inst::Call(_, f, vs) => seq![f] + vs@,
        Inst::Deref(_, a) => seq![a],
        Inst::DefVar(_, _, _, a) => seq![a],
        Inst::SetBang(a, b) => seq![a, b],
        Inst::Throw(a) => seq![a],
        Inst::Phi(_, es) => es@.map_values(|e: (ir::BlockId, VarId)| e.1),
        Inst::Recur(vs) => vs@,
        Inst::RegionAlloc(_, r, _, vs) => seq![r] + vs@,
        Inst::RegionEnd(r) => seq![r],
        Inst::CallWithRegion(_, _, vs, r) => seq![r] + vs@,
        Inst::Await { value, .. } => seq![value],
        Inst::Spawn { body, .. } => seq![body],
        Inst::ChanTake { chan, .. } => seq![chan],
        Inst::ChanPut { chan, value, .. } => seq![chan, value],
        _ => Seq::empty(),
    }
}

/// The values that the end of a block reads.
pub open spec fn end_operands(t: Terminator) -> Seq<VarId> {
    match t {
        Terminator::Return(v) => seq![v],
        Terminator::Branch { cond, .. } => seq![cond],
        Terminator::RecurJump { args, .. } => args@,
        _ => Seq::empty(),
    }
}

/// How often `v` is among the values.
pub open spec fn times(vs: Seq<VarId>, v: VarId) -> nat {
    vs.to_multiset().count(v)
}

proof fn joined(a: Seq<VarId>, b: Seq<VarId>, v: VarId)
    ensures
        (a + b).contains(v) <==> a.contains(v) || b.contains(v),
{
    let c = a + b;
    if a.contains(v) {
        let i = choose|i: int| 0 <= i < a.len() && a[i] == v;
        assert(c[i] == v);
    }
    if b.contains(v) {
        let i = choose|i: int| 0 <= i < b.len() && b[i] == v;
        assert(c[a.len() + i] == v);
    }
    if c.contains(v) && !a.contains(v) {
        let i = choose|i: int| 0 <= i < c.len() && c[i] == v;
        if i < a.len() {
            assert(a[i] == v);
        }
        assert(b[i - a.len()] == v);
    }
}

proof fn allocated_in(insts: Seq<Inst>, n: int, v: VarId)
    requires
        0 <= n <= insts.len(),
    ensures
        escape::allocs_in(insts, n).contains(v) <==> exists|i: int| 0 <= i < n && is_allocation(#[trigger] insts[i]) && insts[i].spec_dst() == Some(v),
        escape::closures_in(insts, n).contains(v) <==> exists|i: int| 0 <= i < n && (#[trigger] insts[i]) is AllocClosure && insts[i].spec_dst() == Some(v),
    decreases n,
{
    if n > 0 {
        let last = insts[n - 1];
        allocated_in(insts, n - 1, v);
        joined(escape::allocs_in(insts, n - 1), escape::alloc_of(last), v);
        joined(escape::closures_in(insts, n - 1), escape::closure_of(last), v);
        assert(escape::alloc_of(last).contains(v) <==> is_allocation(last) && last.spec_dst() == Some(v)) by {
            if is_allocation(last) {
                assert(escape::alloc_of(last)[0] == last.spec_dst()->0);
            }
        }
        assert(escape::closure_of(last).contains(v) <==> last is AllocClosure && last.spec_dst() == Some(v)) by {
            if last is AllocClosure {
                assert(escape::closure_of(last)[0] == last.spec_dst()->0);
            }
        }
    }
}

proof fn stored_in(insts: Seq<Inst>, n: int, v: VarId)
    requires
        0 <= n <= insts.len(),
    ensures
        escape::static_sinks_in(insts, n).contains(v) || escape::atom_sinks_in(insts, n).contains(v) <==> exists|i: int| 0 <= i < n && stores(#[trigger] insts[i], v),
    decreases n,
{
    if n > 0 {
        let last = insts[n - 1];
        stored_in(insts, n - 1, v);
        joined(escape::static_sinks_in(insts, n - 1), escape::static_sink_of(last), v);
        joined(escape::atom_sinks_in(insts, n - 1), escape::atom_sink_of(last), v);
        assert(escape::static_sink_of(last).contains(v) || escape::atom_sink_of(last).contains(v) <==> stores(last, v)) by {
            match last {
                Inst::DefVar(_, _, _, x) => {
                    assert(escape::static_sink_of(last)[0] == x);
                },
                Inst::SetBang(_, x) => {
                    assert(escape::static_sink_of(last)[0] == x);
                },
                Inst::CallKnown(_, kf, args) => {
                    let out = escape::atom_sink_of(last);
                    if kf == KnownFn::AtomReset && args@.len() >= 2 {
                        assert(out[0] == args@[1]);
                    } else if kf == KnownFn::AtomSwap && args@.len() >= 3 {
                        assert forall|k: int| 2 <= k < args@.len() && #[trigger] args@[k] == v implies out.contains(v) by {
                            assert(out[k - 2] == v);
                        }
                        if out.contains(v) {
                            let k = choose|k: int| 0 <= k < out.len() && out[k] == v;
                            assert(args@[k + 2] == v);
                        }
                    }
                },
                _ => {},
            }
        }
    }
}

proof fn lazy_in(insts: Seq<Inst>, n: int, v: VarId)
    requires
        0 <= n <= insts.len(),
    ensures
        escape::lazies_in(insts, n).contains(v) <==> exists|i: int| 0 <= i < n && (#[trigger] insts[i]) is CallKnown && is_lazy_function(insts[i]->CallKnown_1) && insts[i].spec_dst() == Some(v),
    decreases n,
{
    if n > 0 {
        let last = insts[n - 1];
        lazy_in(insts, n - 1, v);
        joined(escape::lazies_in(insts, n - 1), escape::lazy_of(last), v);
        assert(escape::lazy_of(last).contains(v) <==> last is CallKnown && is_lazy_function(last->CallKnown_1) && last.spec_dst() == Some(v)) by {
            if last is CallKnown && escape::is_lazy(last->CallKnown_1) {
                assert(escape::lazy_of(last)[0] == last.spec_dst()->0);
            }
        }
    }
}

proof fn edge_in(insts: Seq<Inst>, n: int, a: VarId, b: VarId)
    requires
        0 <= n <= insts.len(),
    ensures
        escape::edges_in(insts, n).contains((a, b)) <==> exists|i: int| 0 <= i < n && takes_input(#[trigger] insts[i], a, b),
    decreases n,
{
    if n > 0 {
        let last = insts[n - 1];
        edge_in(insts, n - 1, a, b);
        let x = escape::edges_in(insts, n - 1);
        let y = escape::edges_of(last);
        let z = x + y;
        let e = (a, b);
        assert(z.contains(e) <==> x.contains(e) || y.contains(e)) by {
            if x.contains(e) {
                let i = choose|i: int| 0 <= i < x.len() && x[i] == e;
                assert(z[i] == e);
            }
            if y.contains(e) {
                let i = choose|i: int| 0 <= i < y.len() && y[i] == e;
                assert(z[x.len() + i] == e);
            }
            if z.contains(e) && !x.contains(e) {
                let i = choose|i: int| 0 <= i < z.len() && z[i] == e;
                if i < x.len() {
                    assert(x[i] == e);
                }
                assert(y[i - x.len()] == e);
            }
        }
        assert(y.contains(e) <==> takes_input(last, a, b)) by {
            if let Inst::Phi(d, es) = last {
                if takes_input(last, a, b) {
                    let k = choose|k: int| 0 <= k < es@.len() && (#[trigger] es@[k]).1 == b;
                    assert(y[k] == e);
                }
                if y.contains(e) {
                    let k = choose|k: int| 0 <= k < y.len() && y[k] == e;
                    assert(es@[k].1 == b);
                }
            }
        }
    }
}

/// The first `n` blocks hold an instruction of which something holds.
spec fn any(blocks: Seq<Block>, n: int, phis: bool, p: spec_fn(Inst) -> bool) -> bool {
    exists|b: int, i: int| 0 <= b < n && 0 <= i < list(blocks[b], phis).len() && p(#[trigger] list(blocks[b], phis)[i])
}

spec fn list(b: Block, phis: bool) -> Seq<Inst> {
    if phis { b.phis@ } else { b.insts@ }
}

proof fn any_more(blocks: Seq<Block>, n: int, phis: bool, p: spec_fn(Inst) -> bool)
    requires
        0 < n <= blocks.len(),
    ensures
        any(blocks, n, phis, p) <==> any(blocks, n - 1, phis, p) || exists|i: int| 0 <= i < list(blocks[n - 1], phis).len() && p(#[trigger] list(blocks[n - 1], phis)[i]),
{
    if any(blocks, n, phis, p) && !any(blocks, n - 1, phis, p) {
        let (b, i) = choose|b: int, i: int| 0 <= b < n && 0 <= i < list(blocks[b], phis).len() && p(#[trigger] list(blocks[b], phis)[i]);
        assert(b == n - 1);
        assert(p(list(blocks[n - 1], phis)[i]));
    }
}

proof fn all_allocated(blocks: Seq<Block>, n: int, v: VarId)
    requires
        0 <= n <= blocks.len(),
    ensures
        escape::allocs(blocks, n).contains(v) <==> ({
            let p = |inst: Inst| is_allocation(inst) && inst.spec_dst() == Some(v);
            any(blocks, n, true, p) || any(blocks, n, false, p)
        }),
        escape::closures(blocks, n).contains(v) <==> ({
            let p = |inst: Inst| inst is AllocClosure && inst.spec_dst() == Some(v);
            any(blocks, n, true, p) || any(blocks, n, false, p)
        }),
        escape::lazies(blocks, n).contains(v) <==> any(blocks, n, false, |inst: Inst| inst is CallKnown && is_lazy_function(inst->CallKnown_1) && inst.spec_dst() == Some(v)),
        escape::static_sinks(blocks, n).contains(v) || escape::atom_sinks(blocks, n).contains(v) <==> any(blocks, n, false, |inst: Inst| stores(inst, v)),
    decreases n,
{
    let p = |inst: Inst| is_allocation(inst) && inst.spec_dst() == Some(v);
    let q = |inst: Inst| inst is AllocClosure && inst.spec_dst() == Some(v);
    let l = |inst: Inst| inst is CallKnown && is_lazy_function(inst->CallKnown_1) && inst.spec_dst() == Some(v);
    let s = |inst: Inst| stores(inst, v);
    if n > 0 {
        let b = blocks[n - 1];
        all_allocated(blocks, n - 1, v);
        allocated_in(b.phis@, b.phis@.len() as int, v);
        allocated_in(b.insts@, b.insts@.len() as int, v);
        lazy_in(b.insts@, b.insts@.len() as int, v);
        stored_in(b.insts@, b.insts@.len() as int, v);
        any_more(blocks, n, true, p);
        any_more(blocks, n, false, p);
        any_more(blocks, n, true, q);
        any_more(blocks, n, false, q);
        any_more(blocks, n, false, l);
        any_more(blocks, n, false, s);
        assert forall|i: int| 0 <= i < b.phis@.len() implies list(b, true)[i] == #[trigger] b.phis@[i] by {}
        assert forall|i: int| 0 <= i < b.insts@.len() implies list(b, false)[i] == #[trigger] b.insts@[i] by {}
        let a1 = escape::allocs(blocks, n - 1);
        let a2 = escape::allocs_in(b.phis@, b.phis@.len() as int);
        joined(a1, a2, v);
        joined(a1 + a2, escape::allocs_in(b.insts@, b.insts@.len() as int), v);
        let c1 = escape::closures(blocks, n - 1);
        let c2 = escape::closures_in(b.phis@, b.phis@.len() as int);
        joined(c1, c2, v);
        joined(c1 + c2, escape::closures_in(b.insts@, b.insts@.len() as int), v);
        joined(escape::lazies(blocks, n - 1), escape::lazies_in(b.insts@, b.insts@.len() as int), v);
        joined(escape::static_sinks(blocks, n - 1), escape::static_sinks_in(b.insts@, b.insts@.len() as int), v);
        joined(escape::atom_sinks(blocks, n - 1), escape::atom_sinks_in(b.insts@, b.insts@.len() as int), v);
    }
}

proof fn all_edges_are_taken(blocks: Seq<Block>, n: int, x: VarId, y: VarId)
    requires
        0 <= n <= blocks.len(),
    ensures
        escape::edges(blocks, n).contains((x, y)) <==> any(blocks, n, true, |inst: Inst| takes_input(inst, x, y)),
    decreases n,
{
    let p = |inst: Inst| takes_input(inst, x, y);
    if n > 0 {
        let b = blocks[n - 1];
        all_edges_are_taken(blocks, n - 1, x, y);
        edge_in(b.phis@, b.phis@.len() as int, x, y);
        any_more(blocks, n, true, p);
        assert forall|i: int| 0 <= i < b.phis@.len() implies list(b, true)[i] == #[trigger] b.phis@[i] by {}
        let a = escape::edges(blocks, n - 1);
        let c = escape::edges_in(b.phis@, b.phis@.len() as int);
        let d = a + c;
        let e = (x, y);
        if a.contains(e) {
            let i = choose|i: int| 0 <= i < a.len() && a[i] == e;
            assert(d[i] == e);
        }
        if c.contains(e) {
            let i = choose|i: int| 0 <= i < c.len() && c[i] == e;
            assert(d[a.len() + i] == e);
        }
        if d.contains(e) && !a.contains(e) {
            let i = choose|i: int| 0 <= i < d.len() && d[i] == e;
            if i < a.len() {
                assert(a[i] == e);
            }
            assert(c[i - a.len()] == e);
        }
    }
}

spec fn stands(func: IrFunction, phis: bool, inst: Inst) -> bool {
    if phis { has_phi(func, inst) } else { has_inst(func, inst) }
}

/// Where a list of a function holds an instruction, the function does.
proof fn any_is_there(func: IrFunction, phis: bool, p: spec_fn(Inst) -> bool)
    ensures
        any(func.blocks@, func.blocks@.len() as int, phis, p) <==> exists|inst: Inst| #[trigger] stands(func, phis, inst) && p(inst),
{
    let blocks = func.blocks@;
    if any(blocks, blocks.len() as int, phis, p) {
        let (b, i) = choose|b: int, i: int| 0 <= b < blocks.len() && 0 <= i < list(blocks[b], phis).len() && p(#[trigger] list(blocks[b], phis)[i]);
        let inst = list(blocks[b], phis)[i];
        if phis {
            assert(func.blocks@[b].phis@[i] == inst);
            assert(has_phi(func, inst));
        } else {
            assert(func.blocks@[b].insts@[i] == inst);
            assert(has_inst(func, inst));
        }
        assert(stands(func, phis, inst) && p(inst));
    }
    assert forall|inst: Inst| #[trigger] stands(func, phis, inst) && p(inst) implies any(blocks, blocks.len() as int, phis, p) by {
        if phis {
            let (b, i) = choose|b: int, i: int| 0 <= b < func.blocks@.len() && 0 <= i < func.blocks@[b].phis@.len() && #[trigger] func.blocks@[b].phis@[i] == inst;
            assert(p(list(blocks[b], phis)[i]));
        } else {
            let (b, i) = choose|b: int, i: int| 0 <= b < func.blocks@.len() && 0 <= i < func.blocks@[b].insts@.len() && #[trigger] func.blocks@[b].insts@[i] == inst;
            assert(p(list(blocks[b], phis)[i]));
        }
    }
}

/// An instruction stands in one of the two lists of a block.
proof fn either_list(func: IrFunction, p: spec_fn(Inst) -> bool)
    ensures
        any(func.blocks@, func.blocks@.len() as int, true, p) || any(func.blocks@, func.blocks@.len() as int, false, p) <==> exists|inst: Inst| #[trigger] has(func, inst) && p(inst),
{
    any_is_there(func, true, p);
    any_is_there(func, false, p);
    if exists|inst: Inst| #[trigger] stands(func, true, inst) && p(inst) {
        let inst = choose|inst: Inst| #[trigger] stands(func, true, inst) && p(inst);
        assert(has(func, inst) && p(inst));
    }
    if exists|inst: Inst| #[trigger] stands(func, false, inst) && p(inst) {
        let inst = choose|inst: Inst| #[trigger] stands(func, false, inst) && p(inst);
        assert(has(func, inst) && p(inst));
    }
    assert forall|inst: Inst| #[trigger] has(func, inst) && p(inst) implies any(func.blocks@, func.blocks@.len() as int, true, p) || any(func.blocks@, func.blocks@.len() as int, false, p) by {
        assert(stands(func, true, inst) || stands(func, false, inst));
    }
}

proof fn collected(func: IrFunction, v: VarId)
    ensures
        escape::all_allocs(func).contains(v) == makes(func, v),
        escape::is_closure(func, v) == makes_closure(func, v),
        escape::lazies(func.blocks@, func.blocks@.len() as int).contains(v) == is_lazy(func, v),
        escape::all_sinks(func).contains(v) == is_stored(func, v),
{
    let n = func.blocks@.len() as int;
    let p = |inst: Inst| is_allocation(inst) && inst.spec_dst() == Some(v);
    let q = |inst: Inst| inst is AllocClosure && inst.spec_dst() == Some(v);
    let l = |inst: Inst| inst is CallKnown && is_lazy_function(inst->CallKnown_1) && inst.spec_dst() == Some(v);
    let s = |inst: Inst| stores(inst, v);
    all_allocated(func.blocks@, n, v);
    joined(escape::static_sinks(func.blocks@, n), escape::atom_sinks(func.blocks@, n), v);
    assert(escape::all_allocs(func).contains(v) == makes(func, v)) by {
        either_list(func, p);
        assert((exists|inst: Inst| #[trigger] has(func, inst) && p(inst)) == makes(func, v));
    }
    assert(escape::is_closure(func, v) == makes_closure(func, v)) by {
        either_list(func, q);
        assert((exists|inst: Inst| #[trigger] has(func, inst) && q(inst)) == makes_closure(func, v));
    }
    assert(escape::lazies(func.blocks@, n).contains(v) == is_lazy(func, v)) by {
        any_is_there(func, false, l);
        assert forall|inst: Inst| stands(func, false, inst) == #[trigger] has_inst(func, inst) by {}
        assert((exists|inst: Inst| #[trigger] stands(func, false, inst) && l(inst)) == is_lazy(func, v));
    }
    assert(escape::all_sinks(func).contains(v) == is_stored(func, v)) by {
        any_is_there(func, false, s);
        assert forall|inst: Inst| stands(func, false, inst) == #[trigger] has_inst(func, inst) by {}
        assert((exists|inst: Inst| #[trigger] stands(func, false, inst) && s(inst)) == is_stored(func, v));
    }
}

proof fn edges_are_taken(func: IrFunction, x: VarId, y: VarId)
    ensures
        escape::all_edges(func).contains((x, y)) == takes(func, x, y),
{
    let p = |inst: Inst| takes_input(inst, x, y);
    all_edges_are_taken(func.blocks@, func.blocks@.len() as int, x, y);
    any_is_there(func, true, p);
    assert forall|inst: Inst| stands(func, true, inst) == #[trigger] has_phi(func, inst) by {}
    assert((exists|inst: Inst| #[trigger] stands(func, true, inst) && p(inst)) == takes(func, x, y));
}

proof fn ways_are_paths(func: IrFunction, way: Seq<VarId>)
    ensures
        escape::is_path(escape::all_edges(func), way) == is_way(func, way),
{
    let es = escape::all_edges(func);
    if is_way(func, way) {
        assert forall|k: int| 0 <= k < way.len() - 1 implies es.contains((#[trigger] way[k], way[k + 1])) by {
            assert(takes(func, way[k], way[k + 1]));
            edges_are_taken(func, way[k], way[k + 1]);
        }
    }
    if escape::is_path(es, way) {
        assert forall|k: int| 0 <= k < way.len() - 1 implies takes(func, #[trigger] way[k], way[k + 1]) by {
            assert(es.contains((way[k], way[k + 1])));
            edges_are_taken(func, way[k], way[k + 1]);
        }
    }
}

proof fn own_is_made(func: IrFunction, v: VarId)
    ensures
        escape::is_own(func, v) == is_made(func, v),
{
    let es = escape::all_edges(func);
    if escape::is_own(func, v) {
        let a = choose|a: VarId| escape::all_allocs(func).contains(a) && #[trigger] escape::leads(es, v, a);
        collected(func, a);
        let way = choose|path: Seq<VarId>| #[trigger] escape::is_path(es, path) && path[0] == v && path.last() == a;
        ways_are_paths(func, way);
        assert(is_way(func, way));
    }
    if is_made(func, v) {
        let way = choose|way: Seq<VarId>| #[trigger] is_way(func, way) && way[0] == v && makes(func, way.last());
        collected(func, way.last());
        ways_are_paths(func, way);
        assert(escape::leads(es, v, way.last()));
    }
}

proof fn returned(func: IrFunction, n: int, x: ViolationView)
    requires
        0 <= n <= func.blocks@.len(),
    ensures
        escape::bad_returns(func, n).contains(x) <==> exists|b: int, v: VarId| 0 <= b < n && #[trigger] ends_in(func, b, v) && x == ViolationView::InteriorPointerReturn(ir::text_opt(func.name), v) && is_made(func, v),
        escape::bad_lazies(func, n).contains(x) <==> exists|b: int, v: VarId| 0 <= b < n && #[trigger] ends_in(func, b, v) && x == ViolationView::LazySeqEscape(ir::text_opt(func.name), v) && escape::is_reused_lazy(func, v),
    decreases n,
{
    if n > 0 {
        returned(func, n - 1, x);
        let rest = escape::bad_returns(func, n - 1);
        let lazies = escape::bad_lazies(func, n - 1);
        match func.blocks@[n - 1].terminator {
            Terminator::Return(v) => {
                own_is_made(func, v);
                pushed(rest, ViolationView::InteriorPointerReturn(ir::text_opt(func.name), v), x);
                pushed(lazies, ViolationView::LazySeqEscape(ir::text_opt(func.name), v), x);
                assert(ends_in(func, n - 1, v));
            },
            _ => {},
        }
    }
}

/// Block `b` returns `v`.
pub open spec fn ends_in(func: IrFunction, b: int, v: VarId) -> bool {
    func.blocks@[b].terminator == Terminator::Return(v)
}

proof fn pushed(xs: Seq<ViolationView>, y: ViolationView, x: ViolationView)
    ensures
        xs.push(y).contains(x) <==> xs.contains(x) || x == y,
{
    let zs = xs.push(y);
    assert(zs[xs.len() as int] == y);
    if xs.contains(x) {
        let i = choose|i: int| 0 <= i < xs.len() && xs[i] == x;
        assert(zs[i] == x);
    }
    if zs.contains(x) && x != y {
        let i = choose|i: int| 0 <= i < zs.len() && zs[i] == x;
        assert(xs[i] == x);
    }
}

proof fn stored(func: IrFunction, n: int, x: ViolationView)
    requires
        0 <= n <= escape::all_sinks(func).len(),
    ensures
        escape::bad_stores(func, n).contains(x) <==> exists|i: int| 0 <= i < n && x == ViolationView::RegionToStaticStore(ir::text_opt(func.name), #[trigger] escape::all_sinks(func)[i]) && is_made(func, escape::all_sinks(func)[i]),
        escape::bad_closures(func, n).contains(x) <==> exists|i: int| 0 <= i < n && x == ViolationView::EscapingClosure(ir::text_opt(func.name), #[trigger] escape::all_sinks(func)[i]) && makes_closure(func, escape::all_sinks(func)[i]),
    decreases n,
{
    if n > 0 {
        stored(func, n - 1, x);
        let v = escape::all_sinks(func)[n - 1];
        own_is_made(func, v);
        collected(func, v);
        pushed(escape::bad_stores(func, n - 1), ViolationView::RegionToStaticStore(ir::text_opt(func.name), v), x);
        pushed(escape::bad_closures(func, n - 1), ViolationView::EscapingClosure(ir::text_opt(func.name), v), x);
    }
}

/// The value is read at two places of the function at least.
pub open spec fn is_used_twice(func: IrFunction, v: VarId) -> bool {
    reads(func.blocks@, func.blocks@.len() as int, v) > 1
}

/// How often the first `n` blocks read the value.
pub open spec fn reads(blocks: Seq<Block>, n: int, v: VarId) -> nat
    decreases n,
{
    if n <= 0 {
        0
    } else {
        let b = blocks[n - 1];
        reads(blocks, n - 1, v) + reads_in(b.phis@, b.phis@.len() as int, v) + reads_in(b.insts@, b.insts@.len() as int, v) + times(end_operands(b.terminator), v)
    }
}

/// How often the first `n` instructions read the value.
pub open spec fn reads_in(insts: Seq<Inst>, n: int, v: VarId) -> nat
    decreases n,
{
    if n <= 0 { 0 } else { reads_in(insts, n - 1, v) + times(operands(insts[n - 1]), v) }
}

proof fn times_push(vs: Seq<VarId>, x: VarId, v: VarId)
    ensures
        times(vs.push(x), v) == times(vs, v) + (if x == v { 1nat } else { 0nat }),
{
    vs.to_multiset_ensures();
}

proof fn times_none(v: VarId)
    ensures
        times(Seq::empty(), v) == 0,
{
    Seq::<VarId>::empty().to_multiset_ensures();
    if times(Seq::empty(), v) > 0 {
        assert(Seq::<VarId>::empty().contains(v));
    }
}

proof fn times_joined(a: Seq<VarId>, b: Seq<VarId>, v: VarId)
    ensures
        times(a + b, v) == times(a, v) + times(b, v),
    decreases b.len(),
{
    times_none(v);
    if b.len() == 0 {
        assert(a + b =~= a);
        assert(b =~= Seq::empty());
    } else {
        times_joined(a, b.drop_last(), v);
        assert(a + b =~= (a + b.drop_last()).push(b.last()));
        assert(b =~= b.drop_last().push(b.last()));
        times_push(a + b.drop_last(), b.last(), v);
        times_push(b.drop_last(), b.last(), v);
    }
}

proof fn times_one(x: VarId, v: VarId)
    ensures
        times(seq![x], v) == escape::one_if(x == v),
{
    times_none(v);
    times_push(Seq::empty(), x, v);
    assert(seq![x] =~= Seq::empty().push(x));
}

proof fn times_two(x: VarId, y: VarId, v: VarId)
    ensures
        times(seq![x, y], v) == escape::one_if(x == v) + escape::one_if(y == v),
{
    times_one(x, v);
    times_push(seq![x], y, v);
    assert(seq![x, y] =~= seq![x].push(y));
}

proof fn counted(vs: Seq<VarId>, v: VarId, n: int)
    requires
        0 <= n <= vs.len(),
    ensures
        escape::count_in(vs, v, n) == times(vs.take(n), v),
    decreases n,
{
    times_none(v);
    if n > 0 {
        counted(vs, v, n - 1);
        assert(vs.take(n) =~= vs.take(n - 1).push(vs[n - 1]));
        times_push(vs.take(n - 1), vs[n - 1], v);
    } else {
        assert(vs.take(0) =~= Seq::empty());
    }
}

proof fn counted_all(vs: Seq<VarId>, v: VarId)
    ensures
        escape::count_in(vs, v, vs.len() as int) == times(vs, v),
{
    counted(vs, v, vs.len() as int);
    assert(vs.take(vs.len() as int) =~= vs);
}

proof fn counted_pairs(ps: Seq<(VarId, VarId)>, v: VarId, n: int)
    requires
        0 <= n <= ps.len(),
    ensures
        escape::count_pairs(ps, v, n) == times(ps.take(n).map_values(|p: (VarId, VarId)| p.0), v) + times(ps.take(n).map_values(|p: (VarId, VarId)| p.1), v),
    decreases n,
{
    times_none(v);
    let f = |p: (VarId, VarId)| p.0;
    let g = |p: (VarId, VarId)| p.1;
    if n > 0 {
        counted_pairs(ps, v, n - 1);
        assert(ps.take(n).map_values(f) =~= ps.take(n - 1).map_values(f).push(ps[n - 1].0));
        assert(ps.take(n).map_values(g) =~= ps.take(n - 1).map_values(g).push(ps[n - 1].1));
        times_push(ps.take(n - 1).map_values(f), ps[n - 1].0, v);
        times_push(ps.take(n - 1).map_values(g), ps[n - 1].1, v);
    } else {
        assert(ps.take(0).map_values(f) =~= Seq::empty());
        assert(ps.take(0).map_values(g) =~= Seq::empty());
    }
}

proof fn counted_entries(es: Seq<(ir::BlockId, VarId)>, v: VarId, n: int)
    requires
        0 <= n <= es.len(),
    ensures
        escape::count_entries(es, v, n) == times(es.take(n).map_values(|e: (ir::BlockId, VarId)| e.1), v),
    decreases n,
{
    times_none(v);
    let f = |e: (ir::BlockId, VarId)| e.1;
    if n > 0 {
        counted_entries(es, v, n - 1);
        assert(es.take(n).map_values(f) =~= es.take(n - 1).map_values(f).push(es[n - 1].1));
        times_push(es.take(n - 1).map_values(f), es[n - 1].1, v);
    } else {
        assert(es.take(0).map_values(f) =~= Seq::empty());
    }
}

proof fn uses_are_reads(inst: Inst, v: VarId)
    ensures
        escape::uses_in_inst(inst, v) == times(operands(inst), v),
{
    times_none(v);
    match inst {
        Inst::AllocVector(_, vs) => counted_all(vs@, v),
        Inst::AllocSet(_, vs) => counted_all(vs@, v),
        Inst::AllocList(_, vs) => counted_all(vs@, v),
        Inst::AllocMap(_, ps) => {
            counted_pairs(ps@, v, ps@.len() as int);
            assert(ps@.take(ps@.len() as int) =~= ps@);
            times_joined(ps@.map_values(|p: (VarId, VarId)| p.0), ps@.map_values(|p: (VarId, VarId)| p.1), v);
        },
        Inst::AllocCons(_, a, b) => times_two(a, b, v),
        Inst::AllocClosure(_, _, vs) => counted_all(vs@, v),
        Inst::CallKnown(_, _, vs) => counted_all(vs@, v),
        Inst::CallDirect(_, _, vs) => counted_all(vs@, v),
        Inst::Call(_, f, vs) => {
            counted_all(vs@, v);
            times_one(f, v);
            times_joined(seq![f], vs@, v);
        },
        Inst::Deref(_, a) => times_one(a, v),
        Inst::DefVar(_, _, _, a) => times_one(a, v),
        Inst::SetBang(a, b) => times_two(a, b, v),
        Inst::Throw(a) => times_one(a, v),
        Inst::Phi(_, es) => {
            counted_entries(es@, v, es@.len() as int);
            assert(es@.take(es@.len() as int) =~= es@);
        },
        Inst::Recur(vs) => counted_all(vs@, v),
        Inst::RegionAlloc(_, r, _, vs) => {
            counted_all(vs@, v);
            times_one(r, v);
            times_joined(seq![r], vs@, v);
        },
        Inst::RegionEnd(r) => times_one(r, v),
        Inst::CallWithRegion(_, _, vs, r) => {
            counted_all(vs@, v);
            times_one(r, v);
            times_joined(seq![r], vs@, v);
        },
        Inst::Await { value, .. } => times_one(value, v),
        Inst::Spawn { body, .. } => times_one(body, v),
        Inst::ChanTake { chan, .. } => times_one(chan, v),
        Inst::ChanPut { chan, value, .. } => times_two(chan, value, v),
        _ => {},
    }
}

proof fn list_reads(insts: Seq<Inst>, n: int, v: VarId)
    requires
        0 <= n <= insts.len(),
    ensures
        escape::uses_in(insts, v, n) == reads_in(insts, n, v),
    decreases n,
{
    if n > 0 {
        list_reads(insts, n - 1, v);
        uses_are_reads(insts[n - 1], v);
    }
}

proof fn all_reads(blocks: Seq<Block>, n: int, v: VarId)
    requires
        0 <= n <= blocks.len(),
    ensures
        escape::count_uses(blocks, v, n) == reads(blocks, n, v),
    decreases n,
{
    if n > 0 {
        let b = blocks[n - 1];
        all_reads(blocks, n - 1, v);
        list_reads(b.phis@, b.phis@.len() as int, v);
        list_reads(b.insts@, b.insts@.len() as int, v);
        times_none(v);
        match b.terminator {
            Terminator::Return(x) => times_one(x, v),
            Terminator::Branch { cond, .. } => times_one(cond, v),
            Terminator::RecurJump { args, .. } => counted_all(args@, v),
            _ => {},
        }
    }
}

/// What a function is blamed for, and for nothing else: it returns a value that it makes, itself or
/// through phis; it stores one where it outlives the function; it returns a lazy sequence that it reads
/// somewhere else too; it stores a closure that it makes.
pub proof fn blame(func: IrFunction, x: ViolationView)
    ensures
        escape::violations(func).contains(x) <==> ({
            let name = ir::text_opt(func.name);
            match x {
                ViolationView::InteriorPointerReturn(f, v) => f == name && is_returned(func, v) && is_made(func, v),
                ViolationView::RegionToStaticStore(f, v) => f == name && is_stored(func, v) && is_made(func, v),
                ViolationView::LazySeqEscape(f, v) => f == name && is_returned(func, v) && is_lazy(func, v) && is_used_twice(func, v),
                ViolationView::EscapingClosure(f, v) => f == name && is_stored(func, v) && makes_closure(func, v),
            }
        }),
{
    let n = func.blocks@.len() as int;
    let m = escape::all_sinks(func).len() as int;
    let name = ir::text_opt(func.name);
    let a = escape::bad_returns(func, n);
    let b = escape::bad_stores(func, m);
    let c = escape::bad_lazies(func, n);
    let d = escape::bad_closures(func, m);
    returned(func, n, x);
    stored(func, m, x);
    assert((a + b).contains(x) <==> a.contains(x) || b.contains(x)) by {
        violations_joined(a, b, x);
    }
    violations_joined(a + b, c, x);
    violations_joined(a + b + c, d, x);
    let v = match x {
        ViolationView::InteriorPointerReturn(_, v) => v,
        ViolationView::RegionToStaticStore(_, v) => v,
        ViolationView::LazySeqEscape(_, v) => v,
        ViolationView::EscapingClosure(_, v) => v,
    };
    collected(func, v);
    all_reads(func.blocks@, n, v);
    assert(is_returned(func, v) <==> exists|k: int| 0 <= k < n && #[trigger] ends_in(func, k, v)) by {
        if is_returned(func, v) {
            let k = choose|k: int| 0 <= k < func.blocks@.len() && (#[trigger] func.blocks@[k]).terminator == Terminator::Return(v);
            assert(ends_in(func, k, v));
        }
        if exists|k: int| 0 <= k < n && #[trigger] ends_in(func, k, v) {
            let k = choose|k: int| 0 <= k < n && #[trigger] ends_in(func, k, v);
            assert(func.blocks@[k].terminator == Terminator::Return(v));
        }
    }
    let sinks = escape::all_sinks(func);
    if is_stored(func, v) {
        let i = choose|i: int| 0 <= i < sinks.len() && sinks[i] == v;
        assert(sinks[i] == v);
    }
    assert forall|i: int| 0 <= i < m implies sinks.contains(#[trigger] sinks[i]) by {}
}

proof fn violations_joined(a: Seq<ViolationView>, b: Seq<ViolationView>, x: ViolationView)
    ensures
        (a + b).contains(x) <==> a.contains(x) || b.contains(x),
{
    let c = a + b;
    if a.contains(x) {
        let i = choose|i: int| 0 <= i < a.len() && a[i] == x;
        assert(c[i] == x);
    }
    if b.contains(x) {
        let i = choose|i: int| 0 <= i < b.len() && b[i] == x;
        assert(c[a.len() + i] == x);
    }
    if c.contains(x) && !a.contains(x) {
        let i = choose|i: int| 0 <= i < c.len() && c[i] == x;
        if i < a.len() {
            assert(a[i] == x);
        }
        assert(b[i - a.len()] == x);
    }
}

/// A block that returns what one of its instructions newly makes is always blamed, whatever the
/// instruction: nothing that makes a collection or a closure is passed over.
pub proof fn returned_allocations_are_blamed(func: IrFunction, inst: Inst, v: VarId)
    requires
        has_inst(func, inst),
        is_allocation(inst),
        inst.spec_dst() == Some(v),
        is_returned(func, v),
    ensures
        escape::violations(func).contains(ViolationView::InteriorPointerReturn(ir::text_opt(func.name), v)),
        escape::all_violations(func).contains(ViolationView::InteriorPointerReturn(ir::text_opt(func.name), v)),
{
    let x = ViolationView::InteriorPointerReturn(ir::text_opt(func.name), v);
    let way = seq![v];
    assert(is_way(func, way));
    assert(has(func, inst));
    assert(makes(func, v));
    assert(way[0] == v && way.last() == v);
    blame(func, x);
    all_blame(func, x);
}

/// A function is blamed for what it does itself, and for what the functions inside it are blamed for,
/// and for nothing else.
pub proof fn all_blame(func: IrFunction, x: ViolationView)
    ensures
        escape::all_violations(func).contains(x) <==> escape::violations(func).contains(x)
            || exists|i: int| 0 <= i < func.subfunctions@.len() && escape::all_violations(#[trigger] func.subfunctions@[i]).contains(x),
{
    violations_joined(escape::violations(func), escape::inner_violations(func.subfunctions@), x);
    inner_blame(func.subfunctions@, x);
}

proof fn inner_blame(funcs: Seq<IrFunction>, x: ViolationView)
    ensures
        escape::inner_violations(funcs).contains(x) <==> exists|i: int| 0 <= i < funcs.len() && escape::all_violations(#[trigger] funcs[i]).contains(x),
    decreases funcs.len(),
{
    if funcs.len() > 0 {
        let rest = funcs.drop_last();
        inner_blame(rest, x);
        violations_joined(escape::inner_violations(rest), escape::all_violations(funcs.last()), x);
        if escape::inner_violations(rest).contains(x) {
            let i = choose|i: int| 0 <= i < rest.len() && escape::all_violations(#[trigger] rest[i]).contains(x);
            assert(funcs[i] == rest[i]);
        }
        assert forall|i: int| 0 <= i < funcs.len() && escape::all_violations(#[trigger] funcs[i]).contains(x) implies escape::inner_violations(rest).contains(x)
            || escape::all_violations(funcs.last()).contains(x) by {
            if i < rest.len() {
                assert(rest[i] == funcs[i]);
            }
        }
    }
}

} // verus!
