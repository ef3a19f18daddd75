//! Why every function that lowering makes can be compiled.
use crate::backend;
use crate::emission;
use crate::feasible;
use crate::ir;
use crate::ir::{BlockId, BlockView, Inst, InstView, IrFunction, Repr, Terminator, VarId};
use crate::lowered;
use crate::replay;
use crate::replay::SettingView;
use crate::soundness;
use crate::typeinfer;
use vstd::prelude::*;

verus! {

proof fn defined_somewhere(insts: Seq<InstView>, v: u32) -> (k: int)
    requires
        lowered::definitions(insts, v) > 0,
    ensures
        0 <= k < insts.len(),
        lowered::defined_by(insts[k]) == Some(VarId(v)),
    decreases insts.len(),
{
    if lowered::defined_by(insts.last()) == Some(VarId(v)) {
        insts.len() - 1
    } else {
        let k = defined_somewhere(insts.drop_last(), v);
        assert(insts.drop_last()[k] == insts[k]);
        k
    }
}

proof fn defined_in_some_block(blocks: Seq<BlockView>, v: u32) -> (j: int)
    requires
        lowered::block_definitions(blocks, v) > 0,
    ensures
        0 <= j < blocks.len(),
        lowered::definitions(blocks[j].phis, v) > 0 || lowered::definitions(blocks[j].insts, v) > 0,
    decreases blocks.len(),
{
    let last = blocks.last();
    if lowered::definitions(last.phis, v) > 0 || lowered::definitions(last.insts, v) > 0 {
        blocks.len() - 1
    } else {
        let j = defined_in_some_block(blocks.drop_last(), v);
        assert(blocks.drop_last()[j] == blocks[j]);
        j
    }
}

proof fn is_some_param(params: Seq<(Seq<char>, VarId)>, v: u32) -> (k: int)
    requires
        lowered::param_definitions(params, v) > 0,
    ensures
        0 <= k < params.len(),
        params[k].1 == VarId(v),
    decreases params.len(),
{
    if params.last().1 == VarId(v) {
        params.len() - 1
    } else {
        let k = is_some_param(params.drop_last(), v);
        assert(params.drop_last()[k] == params[k]);
        k
    }
}

proof fn params_are_seeded(params: Seq<(String, VarId)>, specs: Seq<Repr>, n: int, i: int)
    requires
        0 <= i < n <= params.len(),
    ensures
        typeinfer::at(typeinfer::param_seeds(params, specs, n), params[i].1) is Some,
    decreases n,
{
    if i < n - 1 {
        params_are_seeded(params, specs, n - 1, i);
    }
}

proof fn hints_keep_seeds(base: Map<u32, Repr>, hints: Seq<(VarId, Repr)>, n: int, v: VarId)
    requires
        0 <= n <= hints.len(),
        typeinfer::at(base, v) is Some,
    ensures
        typeinfer::at(typeinfer::with_hints(base, hints, n), v) is Some,
    decreases n,
{
    if n > 0 {
        hints_keep_seeds(base, hints, n - 1, v);
    }
}

proof fn joined_is_known(entries: Seq<(BlockId, VarId)>, m: Map<u32, Repr>, n: int)
    requires
        0 < n <= entries.len(),
        typeinfer::at(m, entries[0].1) is Some,
    ensures
        typeinfer::phi_join(entries, m, n) is Some,
    decreases n,
{
    if n > 1 {
        joined_is_known(entries, m, n - 1);
    }
}

/// An instruction says something of its value where something is known of what came before.
proof fn result_is_known(inst: Inst, m: Map<u32, Repr>, n: u32, v: u32)
    requires
        lowered::sound_inst(inst@, n),
        lowered::defined_by(inst@) == Some(VarId(v)),
        typeinfer::respects_inst(inst, m),
        forall|w: VarId| w.0 < v ==> (#[trigger] typeinfer::at(m, w)) is Some,
    ensures
        typeinfer::at(m, VarId(v)) is Some,
{
    assert(inst.spec_dst() == Some(VarId(v)));
    match inst {
        Inst::Phi(d, entries) => {
            assert(inst@ == InstView::Phi(d, entries@));
            assert(typeinfer::at(m, entries@[0].1) is Some);
            joined_is_known(entries@, m, entries@.len() as int);
        },
        Inst::CallKnown(d, kf, args) => {
            assert(inst@ == InstView::CallKnown(d, kf, args@));
            if args@.len() == 2 {
                assert(args@[0].0 < v && args@[1].0 < v);
                assert(typeinfer::at(m, args@[0]) is Some);
                assert(typeinfer::at(m, args@[1]) is Some);
            }
        },
        _ => {},
    }
}

proof fn value_is_known(f: IrFunction, specs: Seq<Repr>, m: Map<u32, Repr>, v: u32)
    requires
        lowered::is_whole(ir::function_view(f)),
        typeinfer::is_solution(f, specs, m),
        v < f.next_var,
    ensures
        typeinfer::at(m, VarId(v)) is Some,
    decreases v,
{
    let view = ir::function_view(f);
    assert forall|w: VarId| w.0 < v implies (#[trigger] typeinfer::at(m, w)) is Some by {
        value_is_known(f, specs, m, w.0);
        assert(w == VarId(w.0));
    }
    assert(lowered::param_definitions(view.params, v) + lowered::block_definitions(view.blocks, v) == 1);
    if lowered::param_definitions(view.params, v) > 0 {
        let k = is_some_param(view.params, v);
        assert(view.params[k].1 == f.params@[k].1);
        params_are_seeded(f.params@, specs, f.params@.len() as int, k);
        hints_keep_seeds(typeinfer::param_seeds(f.params@, specs, f.params@.len() as int), f.local_seed_reprs@, f.local_seed_reprs@.len() as int, VarId(v));
        assert(typeinfer::below(typeinfer::at(typeinfer::seeds(f, specs), VarId(v)), typeinfer::at(m, VarId(v))));
    } else {
        let j = defined_in_some_block(view.blocks, v);
        let b = f.blocks@[j];
        assert(view.blocks[j] == b@);
        assert(lowered::sound_block(view.blocks[j], f.next_var));
        assert(typeinfer::respects_block(f.blocks@, b, m));
        if lowered::definitions(view.blocks[j].phis, v) > 0 {
            let k = defined_somewhere(view.blocks[j].phis, v);
            assert(view.blocks[j].phis[k] == b.phis@[k]@);
            assert(lowered::sound_inst(view.blocks[j].phis[k], f.next_var));
            result_is_known(b.phis@[k], m, f.next_var, v);
        } else {
            let k = defined_somewhere(view.blocks[j].insts, v);
            assert(view.blocks[j].insts[k] == b.insts@[k]@);
            assert(lowered::sound_inst(view.blocks[j].insts[k], f.next_var));
            result_is_known(b.insts@[k], m, f.next_var, v);
        }
    }
}

proof fn inst_is_known(inst: Inst, m: Map<u32, Repr>, n: u32)
    requires
        lowered::sound_inst(inst@, n),
        forall|w: VarId| w.0 < n ==> (#[trigger] typeinfer::at(m, w)) is Some,
    ensures
        soundness::operands_known(inst, m),
{
    match inst {
        Inst::Phi(d, entries) => {
            assert(inst@ == InstView::Phi(d, entries@));
        },
        Inst::CallKnown(d, kf, args) => {
            assert(inst@ == InstView::CallKnown(d, kf, args@));
            assert forall|k: int| 0 <= k < args@.len() implies typeinfer::at(m, #[trigger] args@[k]) is Some by {
                assert(args@[k].0 < d.0);
            }
        },
        _ => {},
    }
}

/// Inference knows something of every value of a whole function.
pub proof fn whole_functions_are_known(f: IrFunction, specs: Seq<Repr>, m: Map<u32, Repr>)
    requires
        lowered::is_whole(ir::function_view(f)),
        typeinfer::is_solution(f, specs, m),
    ensures
        forall|v: VarId| v.0 < f.next_var ==> (#[trigger] typeinfer::at(m, v)) is Some,
        forall|b: int| 0 <= b < f.blocks@.len() ==> soundness::block_known(#[trigger] f.blocks@[b], m),
{
    let view = ir::function_view(f);
    assert forall|v: VarId| v.0 < f.next_var implies (#[trigger] typeinfer::at(m, v)) is Some by {
        value_is_known(f, specs, m, v.0);
        assert(v == VarId(v.0));
    }
    assert forall|b: int| 0 <= b < f.blocks@.len() implies soundness::block_known(#[trigger] f.blocks@[b], m) by {
        let block = f.blocks@[b];
        assert(view.blocks[b] == block@);
        assert(lowered::sound_block(view.blocks[b], f.next_var));
        assert forall|i: int| 0 <= i < block.phis@.len() implies soundness::operands_known(#[trigger] block.phis@[i], m) by {
            assert(view.blocks[b].phis[i] == block.phis@[i]@);
            assert(lowered::sound_inst(view.blocks[b].phis[i], f.next_var));
            inst_is_known(block.phis@[i], m, f.next_var);
        }
        assert forall|i: int| 0 <= i < block.insts@.len() implies soundness::operands_known(#[trigger] block.insts@[i], m) by {
            assert(view.blocks[b].insts[i] == block.insts@[i]@);
            assert(lowered::sound_inst(view.blocks[b].insts[i], f.next_var));
            inst_is_known(block.insts@[i], m, f.next_var);
        }
        assert(lowered::sound_term(view.blocks[b].terminator, f.next_var));
        if let Terminator::RecurJump { target, args } = block.terminator {
            assert(lowered::all_below(args@, f.next_var));
        }
    }
}

proof fn definitions_count(insts: Seq<InstView>, v: u32, k: int)
    requires
        0 <= k < insts.len(),
        lowered::defined_by(insts[k]) == Some(VarId(v)),
    ensures
        lowered::definitions(insts, v) > 0,
    decreases insts.len(),
{
    if k < insts.len() - 1 {
        definitions_count(insts.drop_last(), v, k);
    }
}

proof fn block_definitions_count(blocks: Seq<BlockView>, v: u32, j: int)
    requires
        0 <= j < blocks.len(),
        lowered::definitions(blocks[j].phis, v) > 0 || lowered::definitions(blocks[j].insts, v) > 0,
    ensures
        lowered::block_definitions(blocks, v) > 0,
    decreases blocks.len(),
{
    if j < blocks.len() - 1 {
        block_definitions_count(blocks.drop_last(), v, j);
    }
}

/// No instruction of a whole function defines a parameter.
proof fn params_are_not_defined(f: IrFunction, i: int, b: int)
    requires
        lowered::is_whole(ir::function_view(f)),
        0 <= i < f.params@.len(),
        0 <= b < f.blocks@.len(),
    ensures
        forall|k: int| 0 <= k < f.blocks@[b].phis@.len() ==> (#[trigger] f.blocks@[b].phis@[k]).spec_dst() != Some(f.params@[i].1),
        forall|k: int| 0 <= k < f.blocks@[b].insts@.len() ==> (#[trigger] f.blocks@[b].insts@[k]).spec_dst() != Some(f.params@[i].1),
{
    let view = ir::function_view(f);
    let block = f.blocks@[b];
    let v = f.params@[i].1;
    assert(view.params[i].1 == v);
    assert(view.blocks[b] == block@);
    assert(lowered::sound_block(view.blocks[b], f.next_var));
    lowered::a_param_defines(view.params, i);
    assert(lowered::param_definitions(view.params, v.0) + lowered::block_definitions(view.blocks, v.0) == 1);
    assert forall|k: int| 0 <= k < block.phis@.len() implies (#[trigger] block.phis@[k]).spec_dst() != Some(v) by {
        assert(view.blocks[b].phis[k] == block.phis@[k]@);
        assert(lowered::sound_inst(view.blocks[b].phis[k], f.next_var));
        if block.phis@[k].spec_dst() == Some(v) {
            assert(lowered::defined_by(block.phis@[k]@) == Some(v));
            definitions_count(view.blocks[b].phis, v.0, k);
            block_definitions_count(view.blocks, v.0, b);
        }
    }
    assert forall|k: int| 0 <= k < block.insts@.len() implies (#[trigger] block.insts@[k]).spec_dst() != Some(v) by {
        assert(view.blocks[b].insts[k] == block.insts@[k]@);
        assert(lowered::sound_inst(view.blocks[b].insts[k], f.next_var));
        if block.insts@[k].spec_dst() == Some(v) {
            assert(lowered::defined_by(block.insts@[k]@) == Some(v));
            definitions_count(view.blocks[b].insts, v.0, k);
            block_definitions_count(view.blocks, v.0, b);
        }
    }
}

/// A parameter of its own value is seeded with what `specs` says of it.
proof fn seeded_as_specialized(params: Seq<(String, VarId)>, specs: Seq<Repr>, n: int, i: int)
    requires
        0 <= i < n <= params.len(),
        forall|j: int| 0 <= j < params.len() && j != i ==> (#[trigger] params[j]).1 != params[i].1,
    ensures
        typeinfer::at(typeinfer::param_seeds(params, specs, n), params[i].1) == Some(emission::spec_at(specs, i)),
    decreases n,
{
    if i < n - 1 {
        seeded_as_specialized(params, specs, n - 1, i);
        assert(params[n - 1].1 != params[i].1);
    }
}

proof fn lowered_respects(inst: Inst, m: Map<u32, Repr>, n: Map<u32, Repr>, v: VarId)
    requires
        typeinfer::respects_inst(inst, m),
        typeinfer::map_below(n, m),
        forall|w: VarId| w != v ==> #[trigger] typeinfer::at(n, w) == typeinfer::at(m, w),
        inst.spec_dst() != Some(v),
    ensures
        typeinfer::respects_inst(inst, n),
{
    if let Some(d) = inst.spec_dst() {
        typeinfer::inst_result_monotone(inst, n, m);
        assert(typeinfer::at(n, d) == typeinfer::at(m, d));
    }
}

/// A parameter of a whole function is held in the representation that it is specialized to.
proof fn param_is_held(f: IrFunction, specs: Seq<Repr>, m: Map<u32, Repr>, i: int)
    requires
        lowered::is_whole(ir::function_view(f)),
        typeinfer::is_least_solution(f, specs, m),
        0 <= i < f.params@.len(),
    ensures
        typeinfer::at(m, f.params@[i].1) == Some(emission::spec_at(specs, i)),
{
    let view = ir::function_view(f);
    let v = f.params@[i].1;
    let r = emission::spec_at(specs, i);
    assert(view.params[i].1 == v);
    lowered::a_param_defines(view.params, i);
    assert(lowered::param_definitions(view.params, v.0) + lowered::block_definitions(view.blocks, v.0) == 1);
    assert forall|j: int| 0 <= j < f.params@.len() && j != i implies (#[trigger] f.params@[j]).1 != v by {
        assert(view.params[j].1 == f.params@[j].1);
    }
    seeded_as_specialized(f.params@, specs, f.params@.len() as int, i);
    assert(f.local_seed_reprs@.len() == view.local_seed_reprs.len());
    let seeds = typeinfer::seeds(f, specs);
    assert(typeinfer::at(seeds, v) == Some(r));
    assert(typeinfer::below(typeinfer::at(seeds, v), typeinfer::at(m, v)));
    let n = m.insert(v.0, r);
    assert(typeinfer::at(n, v) == Some(r));
    assert forall|w: VarId| w != v implies #[trigger] typeinfer::at(n, w) == typeinfer::at(m, w) by {
        assert(w.0 != v.0);
    }
    assert(typeinfer::map_below(n, m)) by {
        assert forall|w: VarId| typeinfer::below(#[trigger] typeinfer::at(n, w), typeinfer::at(m, w)) by {}
    }
    assert(typeinfer::map_below(seeds, n)) by {
        assert forall|w: VarId| typeinfer::below(#[trigger] typeinfer::at(seeds, w), typeinfer::at(n, w)) by {
            assert(typeinfer::below(typeinfer::at(seeds, w), typeinfer::at(m, w)));
        }
    }
    let blocks = f.blocks@;
    assert forall|b: int| 0 <= b < blocks.len() implies typeinfer::respects_block(blocks, #[trigger] blocks[b], n) by {
        let block = blocks[b];
        assert(typeinfer::respects_block(blocks, block, m));
        params_are_not_defined(f, i, b);
        assert forall|k: int| 0 <= k < block.phis@.len() implies typeinfer::respects_inst(#[trigger] block.phis@[k], n) by {
            lowered_respects(block.phis@[k], m, n, v);
        }
        assert forall|k: int| 0 <= k < block.insts@.len() implies typeinfer::respects_inst(#[trigger] block.insts@[k], n) by {
            lowered_respects(block.insts@[k], m, n, v);
        }
        if let Terminator::RecurJump { target, args } = block.terminator {
            let t = ir::first_block(blocks, target, 0);
            if t < blocks.len() {
                let phis = blocks[t].phis@;
                ir::first_block_bounds(blocks, target, 0);
                params_are_not_defined(f, i, t);
                assert forall|k: int| 0 <= k < phis.len() && k < args@.len() implies #[trigger] typeinfer::respects_arg(phis, args@, k, n) by {
                    assert(typeinfer::respects_arg(phis, args@, k, m));
                    assert(typeinfer::below(typeinfer::at(n, args@[k]), typeinfer::at(m, args@[k])));
                    if let Inst::Phi(d, _) = phis[k] {
                        assert(phis[k].spec_dst() == Some(d));
                        assert(typeinfer::at(n, d) == typeinfer::at(m, d));
                    }
                }
            }
        }
    }
    assert(typeinfer::is_solution(f, specs, n));
    assert(typeinfer::below(typeinfer::at(m, v), typeinfer::at(n, v)));
}

/// The parameters are specialized to integers and floats at most, which a guard can tell.
pub open spec fn has_guards(f: IrFunction, specs: Seq<Repr>) -> bool {
    forall|i: int| 0 <= i < f.params@.len() ==> #[trigger] emission::spec_at(specs, i) != Repr::Bool
}

/// The parameters of a whole function are held as they come, whatever numbers they are specialized
/// to.
pub proof fn specialized_parameters_fit(f: IrFunction, specs: Seq<Repr>, m: Map<u32, Repr>)
    requires
        lowered::is_whole(ir::function_view(f)),
        typeinfer::is_least_solution(f, specs, m),
        has_guards(f, specs),
    ensures
        feasible::params_fit(feasible::reprs_of(m), f.params@, specs),
{
    let params = f.params@;
    assert forall|i: int| 0 <= i < params.len() implies emission::repr_of(feasible::reprs_of(m), (#[trigger] params[i]).1) == (match emission::spec_at(specs, i) {
        Repr::Long => Repr::Long,
        Repr::Double => Repr::Double,
        _ => Repr::Boxed,
    }) by {
        param_is_held(f, specs, m, i);
    }
}

/// The lists of a function's instructions are no longer than a stack slot has cells.
pub open spec fn is_modest(f: IrFunction) -> bool {
    forall|j: int, i: int| 0 <= j < f.blocks@.len() && 0 <= i < f.blocks@[j].insts@.len() ==> feasible::is_modest(#[trigger] f.blocks@[j].insts@[i])
}

/// A whole function of modest lists has a plan, and it can be carried out where its stack slots fit
/// in a frame: whatever lowering yields can be compiled.
pub proof fn whole_functions_can_be_compiled(f: IrFunction, m: Map<u32, Repr>, funcs: Seq<Seq<char>>, st: SettingView)
    requires
        lowered::is_whole(ir::function_view(f)),
        is_modest(f),
        typeinfer::is_solution(f, Seq::empty(), m),
        funcs == st.users.map_values(|u: (Seq<char>, u32)| u.0),
        feasible::has_params(st, f.spec_abi_param_count()),
    ensures
        emission::function_plan(f, typeinfer::unboxed(m), funcs, Seq::empty()) matches Ok(plan) && (plan.ops.len() <= usize::MAX && replay::is_bounded(plan.ops, st)
            ==> replay::is_sound(plan.ops, st)),
{
    lowered::whole_functions_can_be_translated(f, funcs);
    whole_functions_are_known(f, Seq::empty(), m);
    whole_functions_are_regular(f);
    assert(!emission::is_specialized(f, Seq::empty()));
    feasible::inferred_plans_can_be_carried_out(f, Seq::empty(), m, funcs, st);
}

/// A whole function of modest lists is regular.
pub proof fn whole_functions_are_regular(f: IrFunction)
    requires
        lowered::is_whole(ir::function_view(f)),
        is_modest(f),
    ensures
        feasible::is_regular(f),
{
    let view = ir::function_view(f);
    assert(view.blocks[0] == f.blocks@[0]@);
    assert(view.blocks[0].phis.len() == f.blocks@[0].phis@.len());
    assert forall|j: int, k: int| 0 <= j < k < f.blocks@.len() implies (#[trigger] f.blocks@[j]).id != (#[trigger] f.blocks@[k]).id by {
        assert(view.blocks[j].id != view.blocks[k].id);
    }
}

} // verus!
