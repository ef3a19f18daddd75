//! Why inferred representations never stop a translation.
//!
//! A phi or an operation on raw values can only be translated where the representations of its
//! operands fit.  Those that inference finds always do.  And where they rest on the types of the
//! arguments, those are tested before anything else is done.
use crate::bridge::RtFn;
use crate::clif;
use crate::clif::{Cell, IntCond, OpView, PlanView};
use crate::emission;
use crate::emission::EnvView;
use crate::ir;
use crate::ir::{Block, BlockId, Inst, IrFunction, Repr, Terminator, VarId};
use crate::typeinfer;
use vstd::prelude::*;

verus! {

/// Something is known of every operand whose representation decides how `inst` is translated.
pub open spec fn operands_known(inst: Inst, m: Map<u32, Repr>) -> bool {
    match inst {
        Inst::Phi(_, entries) => forall|k: int| 0 <= k < entries@.len() ==> typeinfer::at(m, (#[trigger] entries@[k]).1) is Some,
        Inst::CallKnown(_, _, args) => forall|k: int| 0 <= k < args@.len() ==> typeinfer::at(m, #[trigger] args@[k]) is Some,
        _ => true,
    }
}

/// Something is known of every argument of a jump back.
pub open spec fn jump_known(term: Terminator, m: Map<u32, Repr>) -> bool {
    match term {
        Terminator::RecurJump { target, args } => forall|k: int| 0 <= k < args@.len() ==> typeinfer::at(m, #[trigger] args@[k]) is Some,
        _ => true,
    }
}

/// Something is known of every value that a block reads by its representation.
pub open spec fn block_known(b: Block, m: Map<u32, Repr>) -> bool {
    &&& forall|i: int| 0 <= i < b.phis@.len() ==> operands_known(#[trigger] b.phis@[i], m)
    &&& forall|i: int| 0 <= i < b.insts@.len() ==> operands_known(#[trigger] b.insts@[i], m)
    &&& jump_known(b.terminator, m)
}

/// What `inst` names is there: the functions that it calls or closes over, and the region
/// parameter; and it can be compiled ahead of time at all.
pub open spec fn is_supported(inst: Inst, funcs: Seq<Seq<char>>, region: bool) -> bool {
    match inst {
        Inst::Await { .. } | Inst::Spawn { .. } | Inst::ChanTake { .. } | Inst::ChanPut { .. } => false,
        Inst::RegionParam(_) => region,
        Inst::CallDirect(_, name, _) => funcs.contains(name@),
        Inst::CallWithRegion(_, name, _, _) => funcs.contains(name@),
        Inst::AllocClosure(_, t, _) => forall|k: int| 0 <= k < t.arity_fn_names@.len() ==> funcs.contains((#[trigger] t.arity_fn_names@[k])@),
        _ => true,
    }
}

/// Every instruction of the block is supported.
pub open spec fn block_supported(b: Block, funcs: Seq<Seq<char>>, region: bool) -> bool {
    forall|i: int| 0 <= i < b.insts@.len() ==> is_supported(#[trigger] b.insts@[i], funcs, region)
}

proof fn repr_known(env: EnvView, m: Map<u32, Repr>, v: VarId)
    requires
        env.reprs == typeinfer::unboxed(m),
        typeinfer::at(m, v) is Some,
    ensures
        typeinfer::at(m, v) == Some(emission::repr_of(env, v)),
{
}

/// A value that is not boxed has the representation that was found for it.
proof fn repr_unboxed(env: EnvView, m: Map<u32, Repr>, v: VarId)
    requires
        env.reprs == typeinfer::unboxed(m),
        emission::repr_of(env, v) != Repr::Boxed,
    ensures
        typeinfer::at(m, v) == Some(emission::repr_of(env, v)),
{
}

/// What all inputs of a phi are below, each of them is below.
proof fn phi_join_above(entries: Seq<(BlockId, VarId)>, m: Map<u32, Repr>, n: int, k: int)
    requires
        0 <= k < n <= entries.len(),
    ensures
        typeinfer::below(typeinfer::at(m, entries[k].1), typeinfer::phi_join(entries, m, n)),
    decreases n,
{
    if k < n - 1 {
        phi_join_above(entries, m, n - 1, k);
    }
}

/// Every input of an unboxed phi has the representation of the phi: no edge into it needs a
/// conversion.
pub proof fn unboxed_phis_join_equals(func: IrFunction, specs: Seq<Repr>, m: Map<u32, Repr>, env: EnvView, b: int, i: int, k: int)
    requires
        typeinfer::is_solution(func, specs, m),
        env.reprs == typeinfer::unboxed(m),
        0 <= b < func.blocks@.len(),
        0 <= i < func.blocks@[b].phis@.len(),
        operands_known(func.blocks@[b].phis@[i], m),
    ensures
        func.blocks@[b].phis@[i] matches Inst::Phi(dst, entries) ==> 0 <= k < entries@.len() && emission::repr_of(env, dst) != Repr::Boxed
            ==> emission::repr_of(env, entries@[k].1) == emission::repr_of(env, dst),
{
    let phi = func.blocks@[b].phis@[i];
    if let Inst::Phi(dst, entries) = phi {
        if 0 <= k < entries@.len() && emission::repr_of(env, dst) != Repr::Boxed {
            assert(typeinfer::respects_block(func.blocks@, func.blocks@[b], m));
            assert(typeinfer::respects_inst(phi, m));
            assert(phi.spec_dst() == Some(dst));
            phi_join_above(entries@, m, entries@.len() as int, k);
            repr_unboxed(env, m, dst);
            repr_known(env, m, entries@[k].1);
        }
    }
}

/// Likewise for what a jump back hands to an unboxed phi.
pub proof fn unboxed_phis_get_equals(func: IrFunction, specs: Seq<Repr>, m: Map<u32, Repr>, env: EnvView, b: int, k: int)
    requires
        typeinfer::is_solution(func, specs, m),
        env.reprs == typeinfer::unboxed(m),
        0 <= b < func.blocks@.len(),
        jump_known(func.blocks@[b].terminator, m),
    ensures
        func.blocks@[b].terminator matches Terminator::RecurJump { target, args } ==> {
            let t = ir::first_block(func.blocks@, target, 0);
            t < func.blocks@.len() && 0 <= k < args@.len() && k < func.blocks@[t].phis@.len() ==> (
                func.blocks@[t].phis@[k] matches Inst::Phi(dst, _) ==> emission::repr_of(env, dst) != Repr::Boxed
                    ==> emission::repr_of(env, args@[k]) == emission::repr_of(env, dst))
        },
{
    if let Terminator::RecurJump { target, args } = func.blocks@[b].terminator {
        let t = ir::first_block(func.blocks@, target, 0);
        first_block_range(func.blocks@, target, 0);
        if t < func.blocks@.len() && 0 <= k < args@.len() && k < func.blocks@[t].phis@.len() {
            if let Inst::Phi(dst, _) = func.blocks@[t].phis@[k] {
                if emission::repr_of(env, dst) != Repr::Boxed {
                    assert(typeinfer::respects_block(func.blocks@, func.blocks@[b], m));
                    assert(typeinfer::respects_recur(func.blocks@, func.blocks@[b], m));
                    assert(typeinfer::respects_arg(func.blocks@[t].phis@, args@, k, m));
                    repr_unboxed(env, m, dst);
                    repr_known(env, m, args@[k]);
                }
            }
        }
    }
}

/// A call whose result is not boxed is one that can be made on raw values.
proof fn known_call_translates(env: EnvView, s: PlanView, inst: Inst, m: Map<u32, Repr>)
    requires
        env.reprs == typeinfer::unboxed(m),
        inst is CallKnown,
        typeinfer::respects_inst(inst, m),
        operands_known(inst, m),
    ensures
        emission::inst_value(env, s, inst) is Ok,
{
    if let Inst::CallKnown(dst, kf, args) = inst {
        assert(inst.spec_dst() == Some(dst));
        if emission::repr_of(env, dst) != Repr::Boxed && args@.len() == 2 {
            repr_unboxed(env, m, dst);
            assert(typeinfer::at(m, args@[0]) is Some);
            assert(typeinfer::at(m, args@[1]) is Some);
            repr_known(env, m, args@[0]);
            repr_known(env, m, args@[1]);
        }
    }
}

proof fn store_funcs_translates(env: EnvView, s: PlanView, names: Seq<String>, slot: usize, i: int)
    requires
        0 <= i,
        forall|k: int| 0 <= k < names.len() ==> env.funcs.contains((#[trigger] names[k])@),
    ensures
        emission::store_funcs(env, s, names, slot, i) is Ok,
    decreases names.len() - i,
{
    if i < names.len() {
        if let Ok((s1, value)) = emission::func_ptr(env, s, names[i]@) {
            store_funcs_translates(
                env,
                clif::emit(s1, OpView::StackStore { value, slot, cell: Cell::Word, index: i as usize }),
                names,
                slot,
                i + 1,
            );
        }
    }
}

proof fn closure_translates(env: EnvView, s: PlanView, inst: Inst)
    requires
        inst is AllocClosure,
        is_supported(inst, env.funcs, env.region is Some),
    ensures
        emission::inst_value(env, s, inst) is Ok,
{
    if let Inst::AllocClosure(_, t, captures) = inst {
        let names = t.arity_fn_names@;
        if names.len() >= 1 {
            let (s1, name, name_len) = emission::text_ptr(s, emission::closure_name(t));
            let (s2, caps, ncaps) = emission::spill_counted(env, s1, captures@, (captures@.len() as usize) as i64);
            assert(env.funcs.contains(names[0]@));
            if names.len() > 1 {
                let (s3, slot) = emission::req(s2, OpView::StackSlot { cell: Cell::Word, count: names.len() as usize });
                store_funcs_translates(env, s3, names, slot, 0);
            }
        }
    }
}

proof fn inst_translates(env: EnvView, s: PlanView, inst: Inst, m: Map<u32, Repr>)
    requires
        env.reprs == typeinfer::unboxed(m),
        typeinfer::respects_inst(inst, m),
        operands_known(inst, m),
        is_supported(inst, env.funcs, env.region is Some),
    ensures
        emission::inst_ops(env, s, inst) is Ok,
{
    match inst {
        Inst::CallKnown(_, _, _) => known_call_translates(env, s, inst, m),
        Inst::AllocClosure(_, _, _) => closure_translates(env, s, inst),
        _ => {},
    }
}

proof fn insts_translate(env: EnvView, s: PlanView, insts: Seq<Inst>, m: Map<u32, Repr>, i: int)
    requires
        0 <= i,
        env.reprs == typeinfer::unboxed(m),
        forall|k: int| 0 <= k < insts.len() ==> typeinfer::respects_inst(#[trigger] insts[k], m),
        forall|k: int| 0 <= k < insts.len() ==> operands_known(#[trigger] insts[k], m),
        forall|k: int| 0 <= k < insts.len() ==> is_supported(#[trigger] insts[k], env.funcs, env.region is Some),
    ensures
        emission::insts_ops(env, s, insts, i) is Ok,
    decreases insts.len() - i,
{
    if i < insts.len() {
        inst_translates(env, s, insts[i], m);
        if let Ok(s1) = emission::inst_ops(env, s, insts[i]) {
            insts_translate(env, s1, insts, m, i + 1);
        }
    }
}

proof fn phi_args_translate(func: IrFunction, specs: Seq<Repr>, m: Map<u32, Repr>, env: EnvView, s: PlanView, b: int, from: BlockId, i: int, done: Seq<usize>)
    requires
        typeinfer::is_solution(func, specs, m),
        env.reprs == typeinfer::unboxed(m),
        0 <= b < func.blocks@.len(),
        block_known(func.blocks@[b], m),
        0 <= i,
    ensures
        emission::phi_args(env, s, func.blocks@[b].phis@, from, i, done) is Ok,
    decreases func.blocks@[b].phis@.len() - i,
{
    let phis = func.blocks@[b].phis@;
    if i < phis.len() {
        if let Inst::Phi(dst, entries) = phis[i] {
            let k = emission::entry_for(entries@, from, 0);
            entry_for_range(entries@, from, 0);
            if k < entries@.len() {
                assert(operands_known(phis[i], m));
                unboxed_phis_join_equals(func, specs, m, env, b, i, k);
                if let Ok((s1, x)) = emission::coerce(env, s, entries@[k].1, emission::repr_of(env, dst)) {
                    phi_args_translate(func, specs, m, env, s1, b, from, i + 1, done.push(x));
                }
            } else {
                phi_args_translate(func, specs, m, env, s, b, from, i + 1, done);
            }
        } else {
            phi_args_translate(func, specs, m, env, s, b, from, i + 1, done);
        }
    }
}

proof fn entry_for_range(entries: Seq<(BlockId, VarId)>, from: BlockId, i: int)
    requires
        0 <= i,
    ensures
        0 <= emission::entry_for(entries, from, i) <= entries.len(),
    decreases entries.len() - i,
{
    if i < entries.len() && entries[i].0 != from {
        entry_for_range(entries, from, i + 1);
    }
}

proof fn first_block_range(blocks: Seq<Block>, id: BlockId, i: int)
    requires
        0 <= i,
    ensures
        0 <= ir::first_block(blocks, id, i),
    decreases blocks.len() - i,
{
    if i < blocks.len() && blocks[i].id != id {
        first_block_range(blocks, id, i + 1);
    }
}

proof fn edge_translates(func: IrFunction, specs: Seq<Repr>, m: Map<u32, Repr>, env: EnvView, s: PlanView, to: BlockId, from: BlockId)
    requires
        typeinfer::is_solution(func, specs, m),
        env.reprs == typeinfer::unboxed(m),
        forall|b: int| 0 <= b < func.blocks@.len() ==> block_known(#[trigger] func.blocks@[b], m),
    ensures
        emission::edge_args(env, s, func.blocks@, to, from) is Ok,
{
    let t = ir::first_block(func.blocks@, to, 0);
    first_block_range(func.blocks@, to, 0);
    if t < func.blocks@.len() {
        phi_args_translate(func, specs, m, env, s, t, from, 0, Seq::empty());
    }
}

proof fn recur_args_translate(func: IrFunction, specs: Seq<Repr>, m: Map<u32, Repr>, env: EnvView, s: PlanView, b: int, i: int, done: Seq<usize>)
    requires
        typeinfer::is_solution(func, specs, m),
        env.reprs == typeinfer::unboxed(m),
        0 <= b < func.blocks@.len(),
        jump_known(func.blocks@[b].terminator, m),
        0 <= i,
    ensures
        func.blocks@[b].terminator matches Terminator::RecurJump { target, args } ==> {
            let t = ir::first_block(func.blocks@, target, 0);
            t < func.blocks@.len() ==> emission::recur_args(env, s, args@, func.blocks@[t].phis@, i, done) is Ok
        },
    decreases (if let Terminator::RecurJump { target, args } = func.blocks@[b].terminator { args@.len() - i } else { 0 }),
{
    if let Terminator::RecurJump { target, args } = func.blocks@[b].terminator {
        let t = ir::first_block(func.blocks@, target, 0);
        first_block_range(func.blocks@, target, 0);
        if t < func.blocks@.len() {
            let phis = func.blocks@[t].phis@;
            if i < args@.len() && i < phis.len() {
                unboxed_phis_get_equals(func, specs, m, env, b, i);
                let r = match phis[i] {
                    Inst::Phi(dst, _) => emission::repr_of(env, dst),
                    _ => Repr::Boxed,
                };
                if let Ok((s1, x)) = emission::coerce(env, s, args@[i], r) {
                    recur_args_translate(func, specs, m, env, s1, b, i + 1, done.push(x));
                }
            }
        }
    }
}

proof fn block_translates(func: IrFunction, specs: Seq<Repr>, m: Map<u32, Repr>, env: EnvView, s: PlanView, b: int, switch: bool)
    requires
        typeinfer::is_solution(func, specs, m),
        env.reprs == typeinfer::unboxed(m),
        forall|k: int| 0 <= k < func.blocks@.len() ==> block_known(#[trigger] func.blocks@[k], m),
        forall|k: int| 0 <= k < func.blocks@.len() ==> block_supported(#[trigger] func.blocks@[k], env.funcs, env.region is Some),
        0 <= b < func.blocks@.len(),
    ensures
        emission::block_ops(env, s, func.blocks@[b], switch, func.blocks@) is Ok,
{
    let block = func.blocks@[b];
    let id = env.blocks[block.id.0];
    let s1 = if switch { clif::emit(s, OpView::SwitchTo(id)) } else { s };
    let s2 = emission::phi_params(env, s1, id, block.phis@, 0);
    assert(block_known(block, m));
    assert(block_supported(block, env.funcs, env.region is Some));
    assert(typeinfer::respects_block(func.blocks@, block, m));
    insts_translate(env, s2, block.insts@, m, 0);
    if let Ok(s3) = emission::insts_ops(env, s2, block.insts@, 0) {
        match block.terminator {
            Terminator::Jump(target) => edge_translates(func, specs, m, env, s3, target, block.id),
            Terminator::Branch { cond, then_block, else_block } => {
                edge_translates(func, specs, m, env, s3, then_block, block.id);
                if let Ok((s4, _)) = emission::edge_args(env, s3, func.blocks@, then_block, block.id) {
                    edge_translates(func, specs, m, env, s4, else_block, block.id);
                }
            },
            Terminator::RecurJump { target, args } => {
                let s4 = emission::call_rt_void(s3, RtFn::Safepoint, Seq::empty());
                recur_args_translate(func, specs, m, env, s4, b, 0, Seq::empty());
            },
            _ => {},
        }
    }
}

proof fn blocks_translate(func: IrFunction, specs: Seq<Repr>, m: Map<u32, Repr>, env: EnvView, s: PlanView, specialized: bool, i: int)
    requires
        typeinfer::is_solution(func, specs, m),
        env.reprs == typeinfer::unboxed(m),
        forall|k: int| 0 <= k < func.blocks@.len() ==> block_known(#[trigger] func.blocks@[k], m),
        forall|k: int| 0 <= k < func.blocks@.len() ==> block_supported(#[trigger] func.blocks@[k], env.funcs, env.region is Some),
        0 <= i,
    ensures
        emission::blocks_ops(env, s, func.blocks@, specialized, i) is Ok,
    decreases func.blocks@.len() - i,
{
    if i < func.blocks@.len() {
        block_translates(func, specs, m, env, s, i, i > 0 || specialized);
        if let Ok(s1) = emission::block_ops(env, s, func.blocks@[i], i > 0 || specialized, func.blocks@) {
            blocks_translate(func, specs, m, env, s1, specialized, i + 1);
        }
    }
}

/// With the representations that inference finds, every function can be translated whose
/// instructions are supported: none is ever refused for a mismatch of representations.
///
/// Nothing is said of a function that reads, through a phi, a known call or a jump back, a value
/// of which inference knows nothing, as one whose only input is itself.
pub proof fn inferred_representations_fit(func: IrFunction, specs: Seq<Repr>, m: Map<u32, Repr>, funcs: Seq<Seq<char>>)
    requires
        typeinfer::is_solution(func, specs, m),
        forall|b: int| 0 <= b < func.blocks@.len() ==> block_known(#[trigger] func.blocks@[b], m),
        forall|b: int| 0 <= b < func.blocks@.len() ==> block_supported(#[trigger] func.blocks@[b], funcs, func.spec_takes_region_param()),
    ensures
        emission::function_plan(func, typeinfer::unboxed(m), funcs, specs) is Ok,
{
    let specialized = emission::is_specialized(func, specs);
    let reprs = typeinfer::unboxed(m);
    let (s1, prologue) = if specialized {
        emission::req(emission::empty_plan(), OpView::CreateBlock)
    } else {
        (emission::empty_plan(), 0usize)
    };
    let (s2, map) = emission::create_blocks(s1, Map::empty(), func.blocks@, 0);
    let pins = ir::texts_view(func.pins@);
    let (s3, region) = emission::entry_ops(EnvView { reprs, funcs, blocks: map, region: None, pins }, s2, func, specs, prologue);
    assert(region is Some == func.spec_takes_region_param());
    blocks_translate(func, specs, m, EnvView { reprs, funcs, blocks: map, region, pins }, s3, specialized, 0);
}

/// A request that guarding and unboxing parameters makes: it reads and tests values, and calls
/// nothing but what does the same.
pub open spec fn is_guarding(op: OpView) -> bool {
    match op {
        OpView::BlockParam { .. } | OpView::IntTestImm { .. } | OpView::CreateBlock | OpView::Brif { .. } | OpView::SwitchTo(_) => true,
        OpView::DeclareVar { .. } | OpView::DefVar { .. } => true,
        OpView::ImportRt(f) => f == RtFn::ValueTag || f == RtFn::UnboxLong || f == RtFn::UnboxDouble,
        OpView::Call { .. } => true,
        _ => false,
    }
}

/// All that is added to a plan guards.
pub open spec fn adds_guards(s: PlanView, t: PlanView) -> bool {
    &&& s.ops.len() <= t.ops.len()
    &&& forall|k: int| 0 <= k < s.ops.len() ==> #[trigger] t.ops[k] == s.ops[k]
    &&& forall|k: int| s.ops.len() <= k < t.ops.len() ==> is_guarding(#[trigger] t.ops[k])
}

/// The guards of a specialized function come before its body, and have no effect: until all of them
/// have passed, nothing is done but reading and testing the parameters.  So a call whose guards fail
/// can be made again from the start.
pub proof fn guards_have_no_effect(env: EnvView, s: PlanView, prologue: usize, deopt: usize, params: Seq<(String, VarId)>, specs: Seq<Repr>, i: int)
    requires
        0 <= i,
    ensures
        adds_guards(s, emission::guard_params(env, s, prologue, deopt, params, specs, i)),
    decreases params.len() - i,
{
    if i < params.len() {
        let v = params[i].1;
        let r = emission::spec_at(specs, i);
        let (s1, raw) = emission::req(s, OpView::BlockParam { block: prologue, index: i as usize });
        if r == Repr::Long || r == Repr::Double {
            let (s2, tag) = emission::call_rt(s1, RtFn::ValueTag, seq![raw]);
            let (s3, ok) = emission::req(s2, OpView::IntTestImm { cond: IntCond::Equal, a: tag, imm: emission::guard_tag(r) });
            let (s4, cont) = emission::req(s3, OpView::CreateBlock);
            let s5 = clif::emit(s4, OpView::Brif { cond: ok, then_block: cont, then_args: Seq::empty(), else_block: deopt, else_args: Seq::empty() });
            let s6 = clif::emit(s5, OpView::SwitchTo(cont));
            let (s7, x) = emission::call_rt(s6, if r == Repr::Long { RtFn::UnboxLong } else { RtFn::UnboxDouble }, seq![raw]);
            let s8 = emission::define(env, s7, v, x);
            assert(adds_guards(s, s6));
            assert(adds_guards(s, s8));
            guards_have_no_effect(env, s8, prologue, deopt, params, specs, i + 1);
        } else {
            let s2 = emission::define(env, s1, v, raw);
            assert(adds_guards(s, s2));
            guards_have_no_effect(env, s2, prologue, deopt, params, specs, i + 1);
        }
    }
}

} // verus!
