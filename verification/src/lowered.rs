//! What every lowered function is: whole, and in single-assignment form.
use crate::anf;
use crate::anf::{LowerErrorView, LowerView, Lowered};
use crate::emission;
use crate::form;
use crate::form::{Form, FormKind};
use crate::ir;
use crate::ir::{BlockId, BlockView, ConstView, FunctionView, Inst, InstView, IrFunction, KnownFn, TemplateView, TermView, Terminator, VarId};
use crate::soundness;
use crate::text;
use vstd::prelude::*;

verus! {

/// All of the values are among the first `n`.
pub open spec fn all_below(vs: Seq<VarId>, n: u32) -> bool {
    forall|k: int| 0 <= k < vs.len() ==> (#[trigger] vs[k]).0 < n
}

/// The instruction is one that lowering makes, and reads and defines values among the first `n`.  A
/// call takes values that came before its own, and so does a phi from the way that first led to it.
pub open spec fn sound_inst(inst: InstView, n: u32) -> bool {
    match inst {
        InstView::Const(d, _) => d.0 < n,
        InstView::LoadGlobal(d, _, _) => d.0 < n,
        InstView::AllocVector(d, vs) => d.0 < n && all_below(vs, n),
        InstView::AllocMap(d, ps) => d.0 < n && forall|k: int| 0 <= k < ps.len() ==> (#[trigger] ps[k]).0.0 < n && ps[k].1.0 < n,
        InstView::AllocSet(d, vs) => d.0 < n && all_below(vs, n),
        InstView::AllocList(d, vs) => d.0 < n && all_below(vs, n),
        InstView::AllocClosure(d, t, vs) => d.0 < n && all_below(vs, n) && t.arity_fn_names.len() == 0,
        InstView::CallKnown(d, kf, vs) => d.0 < n && all_below(vs, d.0) && kf != KnownFn::AtomSwap && kf != KnownFn::WithBindings,
        InstView::Call(d, f, vs) => d.0 < n && f.0 < n && all_below(vs, n),
        InstView::Deref(d, v) => d.0 < n && v.0 < n,
        InstView::DefVar(d, _, _, v) => d.0 < n && v.0 < n,
        InstView::SetBang(a, b) => a.0 < n && b.0 < n,
        InstView::Throw(v) => v.0 < n,
        InstView::Phi(d, es) => d.0 < n && es.len() > 0 && es[0].1.0 < d.0 && forall|k: int| 0 <= k < es.len() ==> (#[trigger] es[k]).1.0 < n,
        _ => false,
    }
}

pub open spec fn sound_insts(insts: Seq<InstView>, n: u32) -> bool {
    forall|k: int| 0 <= k < insts.len() ==> sound_inst(#[trigger] insts[k], n)
}

/// The terminator reads values among the first `n`.
pub open spec fn sound_term(t: TermView, n: u32) -> bool {
    match t {
        TermView::Return(v) => v.0 < n,
        TermView::Branch(v, _, _) => v.0 < n,
        TermView::RecurJump(_, vs) => all_below(vs, n),
        _ => true,
    }
}

/// The block has its phis in front, and reads and defines values among the first `n`.
pub open spec fn sound_block(b: BlockView, n: u32) -> bool {
    &&& sound_insts(b.phis, n)
    &&& sound_insts(b.insts, n)
    &&& sound_term(b.terminator, n)
    &&& forall|k: int| 0 <= k < b.phis.len() ==> #[trigger] b.phis[k] is Phi
    &&& forall|k: int| 0 <= k < b.insts.len() ==> !(#[trigger] b.insts[k] is Phi)
}

/// The terminator goes to block `id`.
pub open spec fn goes_to(t: TermView, id: u32) -> bool {
    match t {
        TermView::Jump(b) => b.0 == id,
        TermView::Branch(_, a, b) => a.0 == id || b.0 == id,
        TermView::RecurJump(b, _) => b.0 == id,
        _ => false,
    }
}

/// The value that an instruction of a lowered function defines.
pub open spec fn defined_by(inst: InstView) -> Option<VarId> {
    match inst {
        InstView::Const(d, _) => Some(d),
        InstView::LoadGlobal(d, _, _) => Some(d),
        InstView::AllocVector(d, _) => Some(d),
        InstView::AllocMap(d, _) => Some(d),
        InstView::AllocSet(d, _) => Some(d),
        InstView::AllocList(d, _) => Some(d),
        InstView::AllocClosure(d, _, _) => Some(d),
        InstView::CallKnown(d, _, _) => Some(d),
        InstView::Call(d, _, _) => Some(d),
        InstView::Deref(d, _) => Some(d),
        InstView::DefVar(d, _, _, _) => Some(d),
        InstView::Phi(d, _) => Some(d),
        _ => None,
    }
}

/// How many of the instructions define `v`.
pub open spec fn definitions(insts: Seq<InstView>, v: u32) -> nat
    decreases insts.len(),
{
    if insts.len() == 0 {
        0
    } else {
        definitions(insts.drop_last(), v) + (if defined_by(insts.last()) == Some(VarId(v)) { 1nat } else { 0nat })
    }
}

/// How many instructions of the blocks define `v`.
pub open spec fn block_definitions(blocks: Seq<BlockView>, v: u32) -> nat
    decreases blocks.len(),
{
    if blocks.len() == 0 {
        0
    } else {
        block_definitions(blocks.drop_last(), v) + definitions(blocks.last().phis, v) + definitions(blocks.last().insts, v)
    }
}

/// Some block has the number `id`.
pub open spec fn has_id(blocks: Seq<BlockView>, id: u32) -> bool {
    exists|k: int| 0 <= k < blocks.len() && (#[trigger] blocks[k]).id.0 == id
}

/// Some block goes to `id`.
pub open spec fn is_target(blocks: Seq<BlockView>, id: u32) -> bool {
    exists|k: int| 0 <= k < blocks.len() && goes_to((#[trigger] blocks[k]).terminator, id)
}

/// How many parameters are the value `v`.
pub open spec fn param_definitions(params: Seq<(Seq<char>, VarId)>, v: u32) -> nat
    decreases params.len(),
{
    if params.len() == 0 {
        0
    } else {
        param_definitions(params.drop_last(), v) + (if params.last().1 == VarId(v) { 1nat } else { 0nat })
    }
}

/// A function is whole: it has blocks, no two of one number, the first is block 0 and without phis, its
/// parameters are its first values, in order, every block that is gone to exists, every instruction and
/// terminator reads values of the function alone, and every value of the function is defined once, by a
/// parameter or by an instruction.  There are no hints on values, as many blocks as numbers that were
/// handed out for them, and one of them returns, the last.
pub open spec fn is_whole(f: FunctionView) -> bool {
    &&& f.blocks.len() > 0
    &&& f.blocks[0].phis.len() == 0
    &&& f.blocks[0].id.0 == 0
    &&& forall|j: int, k: int| 0 <= j < k < f.blocks.len() ==> (#[trigger] f.blocks[j]).id != (#[trigger] f.blocks[k]).id
    &&& forall|id: u32| is_target(f.blocks, id) ==> #[trigger] has_id(f.blocks, id)
    &&& forall|k: int| 0 <= k < f.blocks.len() ==> sound_block(#[trigger] f.blocks[k], f.next_var)
    &&& forall|v: u32| v < f.next_var ==> param_definitions(f.params, v) + #[trigger] block_definitions(f.blocks, v) == 1
    &&& forall|i: int| 0 <= i < f.params.len() ==> (#[trigger] f.params[i]).1.0 < f.next_var
    &&& forall|i: int| 0 <= i < f.params.len() ==> (#[trigger] f.params[i]).1.0 == i
    &&& f.local_seed_reprs.len() == 0
    &&& f.blocks.len() == f.next_block
    &&& f.blocks.last().terminator is Return
    &&& no_returns(f.blocks.drop_last())
}

/// None of the blocks returns.
pub open spec fn no_returns(blocks: Seq<BlockView>) -> bool {
    forall|k: int| 0 <= k < blocks.len() ==> !((#[trigger] blocks[k]).terminator is Return)
}

/// The finished blocks are in order: numbered apart, sound, and the first without phis.
spec fn base(s: LowerView) -> bool {
    &&& s.blocks.len() > 0 ==> s.blocks[0].phis.len() == 0 && s.blocks[0].id.0 == 0
    &&& forall|k: int| 0 <= k < s.blocks.len() ==> (#[trigger] s.blocks[k]).id.0 < s.next_block
    &&& forall|j: int, k: int| 0 <= j < k < s.blocks.len() ==> (#[trigger] s.blocks[j]).id != (#[trigger] s.blocks[k]).id
    &&& forall|k: int| 0 <= k < s.blocks.len() ==> sound_block(#[trigger] s.blocks[k], s.next_var)
    &&& sound_insts(s.insts, s.next_var)
    &&& sound_locals(s.locals, s.next_var)
}

spec fn sound_scope(scope: Seq<(Seq<char>, VarId)>, n: u32) -> bool {
    forall|j: int| 0 <= j < scope.len() ==> (#[trigger] scope[j]).1.0 < n
}

spec fn sound_locals(locals: Seq<Seq<(Seq<char>, VarId)>>, n: u32) -> bool {
    forall|i: int| 0 <= i < locals.len() ==> sound_scope(#[trigger] locals[i], n)
}

spec fn no_phis(insts: Seq<InstView>) -> bool {
    forall|k: int| 0 <= k < insts.len() ==> !(#[trigger] insts[k] is Phi)
}

/// The lowering is in order, in a block of its own.
spec fn inv(s: LowerView) -> bool {
    &&& base(s)
    &&& s.blocks.len() == 0 ==> no_phis(s.insts) && s.current.0 == 0
    &&& s.current.0 < s.next_block
    &&& !has_id(s.blocks, s.current.0)
    &&& no_returns(s.blocks)
}

/// The block has been started.
spec fn present(s: LowerView, id: u32) -> bool {
    has_id(s.blocks, id) || s.current.0 == id
}

spec fn defs(s: LowerView, v: u32) -> nat {
    block_definitions(s.blocks, v) + definitions(s.insts, v)
}

spec fn is_header(s: LowerView, id: u32) -> bool {
    exists|k: int| 0 <= k < s.headers.len() && (#[trigger] s.headers[k]).0.0 == id
}

/// What a whole step does: it starts every block that it makes, goes to blocks that it makes or to
/// the loops around it, and defines every value that it makes once.
spec fn step(s: LowerView, t: LowerView) -> bool {
    &&& s.next_var <= t.next_var
    &&& s.next_block <= t.next_block
    &&& t.headers == s.headers
    &&& t.params == s.params
    &&& forall|id: u32| #[trigger] present(t, id) <==> present(s, id) || s.next_block <= id < t.next_block
    &&& forall|id: u32| #[trigger] is_target(t.blocks, id) ==> is_target(s.blocks, id) || s.next_block <= id < t.next_block || is_header(s, id)
    &&& forall|v: u32| #[trigger] defs(t, v) == defs(s, v) + (if s.next_var <= v < t.next_var { 1nat } else { 0nat })
}

/// A step that yields a value leaves a lowering in order.
spec fn lowers(s: LowerView, r: Lowered) -> bool {
    match r {
        Ok((t, v)) => inv(t) && step(s, t) && t.locals == s.locals && v.0 < t.next_var,
        Err(_) => true,
    }
}

spec fn lowers_all(s: LowerView, r: Result<(LowerView, Seq<VarId>), LowerErrorView>) -> bool {
    match r {
        Ok((t, vs)) => inv(t) && step(s, t) && t.locals == s.locals && all_below(vs, t.next_var),
        Err(_) => true,
    }
}

proof fn step_trans(s: LowerView, t: LowerView, u: LowerView)
    requires
        step(s, t),
        step(t, u),
    ensures
        step(s, u),
{
    assert forall|id: u32| #[trigger] present(u, id) <==> present(s, id) || s.next_block <= id < u.next_block by {
        assert(present(t, id) <==> present(s, id) || s.next_block <= id < t.next_block);
    }
    assert forall|id: u32| #[trigger] is_target(u.blocks, id) implies is_target(s.blocks, id) || s.next_block <= id < u.next_block || is_header(s, id) by {
        if is_target(t.blocks, id) {
        }
    }
    assert forall|v: u32| #[trigger] defs(u, v) == defs(s, v) + (if s.next_var <= v < u.next_var { 1nat } else { 0nat }) by {
        assert(defs(t, v) == defs(s, v) + (if s.next_var <= v < t.next_var { 1nat } else { 0nat }));
    }
}

proof fn step_refl(s: LowerView)
    ensures
        step(s, s),
{
}

proof fn present_bound(s: LowerView, id: u32)
    requires
        inv(s),
        present(s, id),
    ensures
        id < s.next_block,
{
}

proof fn sound_inst_grows(inst: InstView, n: u32, m: u32)
    requires
        n <= m,
        sound_inst(inst, n),
    ensures
        sound_inst(inst, m),
{
}

/// The lowering stays in order when numbers are set aside.
proof fn widen(s: LowerView, t: LowerView)
    requires
        inv(s),
        s.next_var <= t.next_var,
        s.next_block <= t.next_block,
        t == (LowerView { next_var: t.next_var, next_block: t.next_block, ..s }),
    ensures
        inv(t),
{
    assert forall|k: int| 0 <= k < t.blocks.len() implies sound_block(#[trigger] t.blocks[k], t.next_var) by {
        assert(sound_block(s.blocks[k], s.next_var));
        let b = t.blocks[k];
        assert forall|i: int| 0 <= i < b.phis.len() implies sound_inst(#[trigger] b.phis[i], t.next_var) by {
            sound_inst_grows(b.phis[i], s.next_var, t.next_var);
        }
        assert forall|i: int| 0 <= i < b.insts.len() implies sound_inst(#[trigger] b.insts[i], t.next_var) by {
            sound_inst_grows(b.insts[i], s.next_var, t.next_var);
        }
    }
    assert forall|i: int| 0 <= i < t.insts.len() implies sound_inst(#[trigger] t.insts[i], t.next_var) by {
        sound_inst_grows(t.insts[i], s.next_var, t.next_var);
    }
    assert forall|i: int| 0 <= i < t.locals.len() implies sound_scope(#[trigger] t.locals[i], t.next_var) by {
        assert(sound_scope(s.locals[i], s.next_var));
    }
}

proof fn definitions_push(insts: Seq<InstView>, inst: InstView, v: u32)
    ensures
        definitions(insts.push(inst), v) == definitions(insts, v) + (if defined_by(inst) == Some(VarId(v)) { 1nat } else { 0nat }),
{
    assert(insts.push(inst).drop_last() =~= insts);
}

/// Every definition is in one of the two selections.
proof fn definitions_select(insts: Seq<InstView>, v: u32)
    ensures
        definitions(anf::select(insts, true), v) + definitions(anf::select(insts, false), v) == definitions(insts, v),
    decreases insts.len(),
{
    if insts.len() > 0 {
        definitions_select(insts.drop_last(), v);
        definitions_push(anf::select(insts.drop_last(), true), insts.last(), v);
        definitions_push(anf::select(insts.drop_last(), false), insts.last(), v);
    }
}

proof fn select_sound(insts: Seq<InstView>, phis: bool, n: u32)
    requires
        sound_insts(insts, n),
    ensures
        sound_insts(anf::select(insts, phis), n),
        forall|k: int| 0 <= k < anf::select(insts, phis).len() ==> (#[trigger] anf::select(insts, phis)[k] is Phi) == phis,
    decreases insts.len(),
{
    if insts.len() > 0 {
        select_sound(insts.drop_last(), phis, n);
        assert(sound_inst(insts[insts.len() - 1], n));
    }
}

proof fn none_selected(insts: Seq<InstView>)
    requires
        no_phis(insts),
    ensures
        anf::select(insts, true).len() == 0,
    decreases insts.len(),
{
    if insts.len() > 0 {
        assert forall|k: int| 0 <= k < insts.drop_last().len() implies !(#[trigger] insts.drop_last()[k] is Phi) by {
            assert(insts.drop_last()[k] == insts[k]);
        }
        none_selected(insts.drop_last());
        assert(!(insts[insts.len() - 1] is Phi));
    }
}

/// A new value, and the instruction that defines it.
proof fn emit_value_lowers(s: LowerView, f: spec_fn(VarId) -> InstView)
    requires
        inv(s),
        f(VarId(s.next_var)) is Phi ==> s.blocks.len() > 0,
        s.next_var < u32::MAX ==> sound_inst(f(VarId(s.next_var)), (s.next_var + 1) as u32) && defined_by(f(VarId(s.next_var))) == Some(VarId(s.next_var)),
    ensures
        lowers(s, anf::emit_value(s, f)),
        anf::emit_value(s, f) matches Ok((t, v)) ==> t.current == s.current && t.blocks == s.blocks && t.next_block == s.next_block && v == VarId(s.next_var) && t.next_var == s.next_var + 1,
{
    if s.next_var < u32::MAX {
        let s1 = LowerView { next_var: (s.next_var + 1) as u32, ..s };
        widen(s, s1);
        let d = VarId(s.next_var);
        let t = anf::emit(s1, f(d));
        assert(t.insts == s.insts.push(f(d)));
        assert forall|v: u32| #[trigger] defs(t, v) == defs(s, v) + (if s.next_var <= v < t.next_var { 1nat } else { 0nat }) by {
            definitions_push(s.insts, f(d), v);
        }
        assert(inv(t));
        assert forall|id: u32| #[trigger] present(t, id) <==> present(s, id) || s.next_block <= id < t.next_block by {
        }
        assert(step(s, t));
    }
}

/// An instruction without a value of its own.
proof fn emit_keeps(s: LowerView, inst: InstView)
    requires
        inv(s),
        sound_inst(inst, s.next_var),
        defined_by(inst) is None,
        !(inst is Phi),
    ensures
        inv(anf::emit(s, inst)),
        step(s, anf::emit(s, inst)),
{
    let t = anf::emit(s, inst);
    assert(t.insts == s.insts.push(inst));
    assert forall|v: u32| #[trigger] defs(t, v) == defs(s, v) by {
        definitions_push(s.insts, inst, v);
    }
    assert forall|id: u32| #[trigger] present(t, id) <==> present(s, id) by {
    }
}

/// The block under construction ends, and another is entered.
proof fn enter(s: LowerView, term: TermView, id: BlockId)
    requires
        inv(s),
        sound_term(term, s.next_var),
        !(term is Return),
        id.0 < s.next_block,
        !present(s, id.0),
    ensures
        ({
            let t = anf::start(anf::finish(s, term), id);
            &&& inv(t)
            &&& t.insts.len() == 0
            &&& forall|x: u32| #[trigger] present(t, x) <==> present(s, x) || x == id.0
            &&& forall|x: u32| #[trigger] is_target(t.blocks, x) ==> is_target(s.blocks, x) || goes_to(term, x)
            &&& forall|v: u32| #[trigger] defs(t, v) == defs(s, v)
        }),
{
    let t = anf::start(anf::finish(s, term), id);
    let b = t.blocks.last();
    ends(s, term);
    assert(t.blocks.drop_last() =~= s.blocks);
    assert forall|k: int| 0 <= k < t.blocks.len() implies !((#[trigger] t.blocks[k]).terminator is Return) by {
        if k < s.blocks.len() {
            assert(t.blocks[k] == s.blocks[k]);
        }
    }
    assert forall|x: u32| #[trigger] present(t, x) <==> present(s, x) || x == id.0 by {
    }
    assert forall|v: u32| #[trigger] defs(t, v) == defs(s, v) by {
        assert(defs(t, v) == block_definitions(anf::finish(s, term).blocks, v) + definitions(Seq::<InstView>::empty(), v));
    }
}

/// The block under construction ends.
proof fn ends(s: LowerView, term: TermView)
    requires
        inv(s),
        sound_term(term, s.next_var),
    ensures
        ({
            let t = anf::finish(s, term);
            &&& base(t)
            &&& forall|x: u32| #[trigger] has_id(t.blocks, x) <==> present(s, x)
            &&& forall|x: u32| #[trigger] is_target(t.blocks, x) ==> is_target(s.blocks, x) || goes_to(term, x)
            &&& forall|v: u32| #[trigger] block_definitions(t.blocks, v) == defs(s, v)
        }),
{
    let t = anf::finish(s, term);
    let b = BlockView { id: s.current, phis: anf::select(s.insts, true), insts: anf::select(s.insts, false), terminator: term };
    assert(t.blocks == s.blocks.push(b));
    select_sound(s.insts, true, s.next_var);
    select_sound(s.insts, false, s.next_var);
    if s.blocks.len() == 0 {
        none_selected(s.insts);
    }
    assert(sound_block(b, s.next_var));
    assert forall|x: u32| #[trigger] has_id(t.blocks, x) <==> present(s, x) by {
        if has_id(s.blocks, x) {
            let k = choose|k: int| 0 <= k < s.blocks.len() && (#[trigger] s.blocks[k]).id.0 == x;
            assert(t.blocks[k].id.0 == x);
        }
        if s.current.0 == x {
            assert(t.blocks[s.blocks.len() as int].id.0 == x);
        }
        if has_id(t.blocks, x) {
            let k = choose|k: int| 0 <= k < t.blocks.len() && (#[trigger] t.blocks[k]).id.0 == x;
            if k < s.blocks.len() {
                assert(s.blocks[k].id.0 == x);
            }
        }
    }
    assert forall|x: u32| #[trigger] is_target(t.blocks, x) implies is_target(s.blocks, x) || goes_to(term, x) by {
        let k = choose|k: int| 0 <= k < t.blocks.len() && goes_to((#[trigger] t.blocks[k]).terminator, x);
        if k < s.blocks.len() {
            assert(goes_to(s.blocks[k].terminator, x));
        }
    }
    assert forall|v: u32| #[trigger] block_definitions(t.blocks, v) == defs(s, v) by {
        definitions_select(s.insts, v);
        assert(t.blocks.drop_last() =~= s.blocks);
    }
    assert forall|j: int, k: int| 0 <= j < k < t.blocks.len() implies (#[trigger] t.blocks[j]).id != (#[trigger] t.blocks[k]).id by {
        if k == s.blocks.len() {
            assert(s.blocks[j].id.0 != s.current.0);
        }
    }
}

/// Numbers are set aside for a block.
proof fn fresh_block_keeps(s: LowerView)
    requires
        inv(s),
    ensures
        anf::fresh_block(s) matches Ok((t, b)) ==> inv(t) && b.0 == s.next_block && t == (LowerView { next_block: (s.next_block + 1) as u32, ..s })
            && t.next_block == s.next_block + 1 && !present(t, b.0),
{
    if let Ok((t, b)) = anf::fresh_block(s) {
        widen(s, t);
        if present(t, b.0) {
            assert(present(s, b.0));
            present_bound(s, b.0);
        }
    }
}

proof fn name_at_range(scope: Seq<(Seq<char>, VarId)>, name: Seq<char>, i: int)
    requires
        0 <= i <= scope.len(),
    ensures
        i <= anf::name_at(scope, name, i) <= scope.len(),
    decreases scope.len() - i,
{
    if i < scope.len() && scope[i].0 != name {
        name_at_range(scope, name, i + 1);
    }
}

/// Binding a name changes the innermost scope alone.
proof fn bind_keeps(s: LowerView, name: Seq<char>, v: VarId)
    requires
        inv(s),
        s.locals.len() > 0,
        v.0 < s.next_var,
    ensures
        ({
            let t = anf::bind(s, name, v);
            &&& inv(t)
            &&& step(s, t)
            &&& t.locals.len() == s.locals.len()
            &&& t.locals.drop_last() == s.locals.drop_last()
            &&& t == (LowerView { locals: t.locals, ..s })
        }),
{
    let t = anf::bind(s, name, v);
    let scope = s.locals.last();
    name_at_range(scope, name, 0);
    assert(sound_scope(scope, s.next_var));
    assert(sound_scope(t.locals.last(), s.next_var));
    assert(t.locals.drop_last() =~= s.locals.drop_last());
    assert forall|i: int| 0 <= i < t.locals.len() implies sound_scope(#[trigger] t.locals[i], t.next_var) by {
        if i < t.locals.len() - 1 {
            assert(t.locals[i] == s.locals[i]);
        }
    }
    assert forall|id: u32| #[trigger] present(t, id) <==> present(s, id) by {
    }
    assert forall|x: u32| #[trigger] defs(t, x) == defs(s, x) by {
    }
}

proof fn lookup_bound(locals: Seq<Seq<(Seq<char>, VarId)>>, name: Seq<char>, n: int, bound: u32)
    requires
        sound_locals(locals, bound),
        n <= locals.len(),
    ensures
        anf::lookup(locals, name, n) matches Some(v) ==> v.0 < bound,
    decreases n,
{
    if n > 0 {
        name_at_range(locals[n - 1], name, 0);
        assert(sound_scope(locals[n - 1], bound));
        lookup_bound(locals, name, n - 1, bound);
    }
}

proof fn symbol_lowers(s: LowerView, name: Seq<char>)
    requires
        inv(s),
    ensures
        lowers(s, anf::lower_symbol(s, name)),
{
    lookup_bound(s.locals, name, s.locals.len() as int, s.next_var);
    step_refl(s);
    match text::before_last(name, '/') {
        Some(ns) => emit_value_lowers(s, |dst: VarId| InstView::LoadGlobal(dst, ns, text::after_last(name, '/'))),
        None => emit_value_lowers(s, |dst: VarId| InstView::LoadGlobal(dst, s.ns, name)),
    }
}

proof fn capture_scope_bound(scope: Seq<(Seq<char>, VarId)>, i: int, names: Seq<Seq<char>>, vars: Seq<VarId>, n: u32)
    requires
        0 <= i,
        sound_scope(scope, n),
        all_below(vars, n),
    ensures
        all_below(anf::capture_scope(scope, i, names, vars).1, n),
    decreases scope.len() - i,
{
    if i < scope.len() {
        if names.contains(scope[i].0) {
            capture_scope_bound(scope, i + 1, names, vars, n);
        } else {
            capture_scope_bound(scope, i + 1, names.push(scope[i].0), vars.push(scope[i].1), n);
        }
    }
}

proof fn capture_all_bound(locals: Seq<Seq<(Seq<char>, VarId)>>, i: int, names: Seq<Seq<char>>, vars: Seq<VarId>, n: u32)
    requires
        0 <= i,
        sound_locals(locals, n),
        all_below(vars, n),
    ensures
        all_below(anf::capture_all(locals, i, names, vars).1, n),
    decreases locals.len() - i,
{
    if i < locals.len() {
        assert(sound_scope(locals[i], n));
        capture_scope_bound(locals[i], 0, names, vars, n);
        let (names1, vars1) = anf::capture_scope(locals[i], 0, names, vars);
        capture_all_bound(locals, i + 1, names1, vars1, n);
    }
}

proof fn closure_lowers(s: LowerView, name: Option<Seq<char>>, forms: Seq<Form>, from: int)
    requires
        inv(s),
    ensures
        lowers(s, anf::lower_closure(s, name, forms, from)),
{
    capture_all_bound(s.locals, 0, Seq::empty(), Seq::empty(), s.next_var);
    let (names, vars) = anf::capture_all(s.locals, 0, Seq::empty(), Seq::empty());
    emit_value_lowers(s, |dst: VarId| InstView::AllocClosure(
        dst,
        TemplateView {
            name,
            arity_fn_names: Seq::empty(),
            param_counts: Seq::empty(),
            is_variadic: Seq::empty(),
            capture_names: names,
            body_forms: form::forms_view(forms.subrange(from, forms.len() as int)),
        },
        vars,
    ));
}

proof fn const_lowers(s: LowerView, c: ConstView)
    requires
        inv(s),
    ensures
        lowers(s, anf::emit_const(s, c)),
{
    emit_value_lowers(s, |dst: VarId| InstView::Const(dst, c));
}

/// A block that nothing follows ends, and one that nothing leads to is entered.
proof fn dead_end_lowers(s: LowerView, term: TermView)
    requires
        inv(s),
        sound_term(term, s.next_var),
        forall|x: u32| goes_to(term, x) ==> is_header(s, x),
        !(term is Return),
    ensures
        lowers(s, anf::dead_end(s, term)),
{
    let f = anf::finish(s, term);
    if let Ok((t, b)) = anf::fresh_block(f) {
        let w = LowerView { next_block: (s.next_block + 1) as u32, ..s };
        fresh_block_keeps(s);
        assert(b.0 == s.next_block);
        enter(w, term, b);
        let u = anf::start(anf::finish(w, term), b);
        assert(u == anf::start(t, b));
        const_lowers(u, ConstView::Nil);
        if let Ok((z, v)) = anf::emit_const(u, ConstView::Nil) {
            assert(step(s, u)) by {
                assert forall|x: u32| #[trigger] present(u, x) <==> present(s, x) || s.next_block <= x < u.next_block by {
                    assert(present(w, x) == present(s, x));
                }
                assert forall|x: u32| #[trigger] defs(u, x) == defs(s, x) by {
                    assert(defs(w, x) == defs(s, x));
                }
            }
            step_trans(s, u, z);
        }
    }
}

proof fn finished_at_range(blocks: Seq<BlockView>, id: BlockId, i: int)
    requires
        0 <= i <= blocks.len(),
    ensures
        i <= anf::finished_at(blocks, id, i) <= blocks.len(),
    decreases blocks.len() - i,
{
    if i < blocks.len() && blocks[i].id != id {
        finished_at_range(blocks, id, i + 1);
    }
}

proof fn definitions_alike(a: Seq<InstView>, b: Seq<InstView>, v: u32)
    requires
        a.len() == b.len(),
        forall|i: int| 0 <= i < a.len() ==> defined_by(#[trigger] a[i]) == defined_by(b[i]),
    ensures
        definitions(a, v) == definitions(b, v),
    decreases a.len(),
{
    if a.len() > 0 {
        assert forall|i: int| 0 <= i < a.drop_last().len() implies defined_by(#[trigger] a.drop_last()[i]) == defined_by(b.drop_last()[i]) by {
            assert(a.drop_last()[i] == a[i]);
        }
        definitions_alike(a.drop_last(), b.drop_last(), v);
        assert(defined_by(a[a.len() - 1]) == defined_by(b[a.len() - 1]));
    }
}

proof fn block_definitions_update(blocks: Seq<BlockView>, h: int, b: BlockView, v: u32)
    requires
        0 <= h < blocks.len(),
        definitions(b.phis, v) + definitions(b.insts, v) == definitions(blocks[h].phis, v) + definitions(blocks[h].insts, v),
    ensures
        block_definitions(blocks.update(h, b), v) == block_definitions(blocks, v),
    decreases blocks.len(),
{
    let u = blocks.update(h, b);
    if h == blocks.len() - 1 {
        assert(u.drop_last() =~= blocks.drop_last());
    } else {
        assert(u.drop_last() =~= blocks.drop_last().update(h, b));
        block_definitions_update(blocks.drop_last(), h, b, v);
    }
}

/// Feeding the phis of a loop changes their inputs alone.
proof fn feed_keeps(s: LowerView, header: BlockId, args: Seq<VarId>)
    requires
        inv(s),
        all_below(args, s.next_var),
    ensures
        ({
            let t = LowerView { blocks: anf::feed_header(s.blocks, header, s.current, args), ..s };
            inv(t) && step(s, t)
        }),
{
    let h = anf::finished_at(s.blocks, header, 0);
    finished_at_range(s.blocks, header, 0);
    let t = LowerView { blocks: anf::feed_header(s.blocks, header, s.current, args), ..s };
    if h < s.blocks.len() {
        let old_phis = s.blocks[h].phis;
        let b = t.blocks[h];
        assert(b.phis == Seq::new(old_phis.len(), |i: int| anf::feed_phi(old_phis[i], s.current, args, i)));
        assert(sound_block(s.blocks[h], s.next_var));
        assert forall|i: int| 0 <= i < b.phis.len() implies sound_inst(#[trigger] b.phis[i], s.next_var) && b.phis[i] is Phi && defined_by(b.phis[i]) == defined_by(old_phis[i]) by {
            assert(sound_inst(old_phis[i], s.next_var));
            assert(old_phis[i] is Phi);
        }
        assert(sound_block(b, s.next_var));
        assert forall|v: u32| #[trigger] defs(t, v) == defs(s, v) by {
            definitions_alike(b.phis, old_phis, v);
            block_definitions_update(s.blocks, h, b, v);
        }
        assert forall|k: int| 0 <= k < t.blocks.len() implies (#[trigger] t.blocks[k]).id == s.blocks[k].id && t.blocks[k].terminator == s.blocks[k].terminator by {
        }
        assert forall|x: u32| #[trigger] has_id(t.blocks, x) <==> has_id(s.blocks, x) by {
            if has_id(s.blocks, x) {
                let k = choose|k: int| 0 <= k < s.blocks.len() && (#[trigger] s.blocks[k]).id.0 == x;
                assert(t.blocks[k].id.0 == x);
            }
            if has_id(t.blocks, x) {
                let k = choose|k: int| 0 <= k < t.blocks.len() && (#[trigger] t.blocks[k]).id.0 == x;
                assert(s.blocks[k].id.0 == x);
            }
        }
        assert forall|x: u32| #[trigger] is_target(t.blocks, x) implies is_target(s.blocks, x) by {
            let k = choose|k: int| 0 <= k < t.blocks.len() && goes_to((#[trigger] t.blocks[k]).terminator, x);
            assert(goes_to(s.blocks[k].terminator, x));
        }
        assert forall|x: u32| #[trigger] present(t, x) <==> present(s, x) by {
        }
        assert forall|j: int, k: int| 0 <= j < k < t.blocks.len() implies (#[trigger] t.blocks[j]).id != (#[trigger] t.blocks[k]).id by {
            assert(s.blocks[j].id != s.blocks[k].id);
        }
        assert forall|k: int| 0 <= k < t.blocks.len() implies sound_block(#[trigger] t.blocks[k], t.next_var) by {
            assert(sound_block(s.blocks[k], s.next_var));
        }
        assert forall|k: int| 0 <= k < t.blocks.len() implies (#[trigger] t.blocks[k]).id.0 < t.next_block by {
            assert(s.blocks[k].id.0 < s.next_block);
        }
    } else {
        assert(t == s);
        step_refl(s);
    }
}

/// No name stands for a call that needs an argument at a fixed place.
proof fn known_needs_nothing(name: Seq<char>)
    ensures
        anf::known_fn(name) matches Some(kf) ==> kf != KnownFn::AtomSwap && kf != KnownFn::WithBindings,
{
}

/// A step, and then the instruction that takes its values.
proof fn then_emit(s: LowerView, t: LowerView, f: spec_fn(VarId) -> InstView)
    requires
        inv(t),
        step(s, t),
        t.locals == s.locals,
        f(VarId(t.next_var)) is Phi ==> t.blocks.len() > 0,
        t.next_var < u32::MAX ==> sound_inst(f(VarId(t.next_var)), (t.next_var + 1) as u32) && defined_by(f(VarId(t.next_var))) == Some(VarId(t.next_var)),
    ensures
        lowers(s, anf::emit_value(t, f)),
{
    emit_value_lowers(t, f);
    if let Ok((u, v)) = anf::emit_value(t, f) {
        step_trans(s, t, u);
    }
}

proof fn quote_lowers(s: LowerView, f: Form)
    requires
        inv(s),
    ensures
        lowers(s, anf::lower_quote(s, f)),
    decreases f, 0int,
{
    match anf::literal(f.kind) {
        Some(c) => const_lowers(s, c),
        None => match f.kind {
            FormKind::Symbol(t) => const_lowers(s, ConstView::Symbol(t@)),
            FormKind::Vector(fs) => {
                quote_all_lowers(s, fs@, 0, Seq::empty());
                if let Ok((t, vs)) = anf::quote_all(s, fs@, 0, Seq::empty()) {
                    then_emit(s, t, |dst: VarId| InstView::AllocVector(dst, vs));
                }
            },
            FormKind::List(fs) => {
                quote_all_lowers(s, fs@, 0, Seq::empty());
                if let Ok((t, vs)) = anf::quote_all(s, fs@, 0, Seq::empty()) {
                    then_emit(s, t, |dst: VarId| InstView::AllocList(dst, vs));
                }
            },
            FormKind::HashSet(fs) => {
                quote_all_lowers(s, fs@, 0, Seq::empty());
                if let Ok((t, vs)) = anf::quote_all(s, fs@, 0, Seq::empty()) {
                    then_emit(s, t, |dst: VarId| InstView::AllocSet(dst, vs));
                }
            },
            FormKind::Dict(fs) => {
                if fs@.len() % 2 == 0 {
                    quote_all_lowers(s, fs@, 0, Seq::empty());
                    if let Ok((t, vs)) = anf::quote_all(s, fs@, 0, Seq::empty()) {
                        then_emit(s, t, |dst: VarId| InstView::AllocMap(dst, anf::pair_up(vs)));
                    }
                }
            },
            _ => {},
        },
    }
}

proof fn quote_all_lowers(s: LowerView, fs: Seq<Form>, i: int, done: Seq<VarId>)
    requires
        inv(s),
        0 <= i,
        all_below(done, s.next_var),
    ensures
        lowers_all(s, anf::quote_all(s, fs, i, done)),
    decreases fs, fs.len() - i,
{
    if i < fs.len() {
        quote_lowers(s, fs[i]);
        if let Ok((t, v)) = anf::lower_quote(s, fs[i]) {
            quote_all_lowers(t, fs, i + 1, done.push(v));
            if let Ok((u, _)) = anf::quote_all(t, fs, i + 1, done.push(v)) {
                step_trans(s, t, u);
            }
        }
    } else {
        step_refl(s);
    }
}

proof fn form_lowers(s: LowerView, f: Form)
    requires
        inv(s),
    ensures
        lowers(s, anf::lower_form(s, f)),
    decreases f, 0int, 0int,
{
    match anf::literal(f.kind) {
        Some(c) => const_lowers(s, c),
        None => match f.kind {
            FormKind::Symbol(t) => symbol_lowers(s, t@),
            FormKind::Vector(fs) => {
                all_lowers(s, fs@, 0, Seq::empty());
                if let Ok((t, vs)) = anf::lower_all(s, fs@, 0, Seq::empty()) {
                    then_emit(s, t, |dst: VarId| InstView::AllocVector(dst, vs));
                }
            },
            FormKind::Dict(fs) => {
                if fs@.len() % 2 == 0 {
                    all_lowers(s, fs@, 0, Seq::empty());
                    if let Ok((t, vs)) = anf::lower_all(s, fs@, 0, Seq::empty()) {
                        then_emit(s, t, |dst: VarId| InstView::AllocMap(dst, anf::pair_up(vs)));
                    }
                }
            },
            FormKind::HashSet(fs) => {
                all_lowers(s, fs@, 0, Seq::empty());
                if let Ok((t, vs)) = anf::lower_all(s, fs@, 0, Seq::empty()) {
                    then_emit(s, t, |dst: VarId| InstView::AllocSet(dst, vs));
                }
            },
            FormKind::List(fs) => {
                if fs@.len() == 0 {
                    emit_value_lowers(s, |dst: VarId| InstView::AllocList(dst, Seq::empty()));
                } else {
                    list_lowers(s, fs@);
                }
            },
            FormKind::Quote(inner) => quote_lowers(s, *inner),
            FormKind::Deref(inner) => {
                form_lowers(s, *inner);
                if let Ok((t, v)) = anf::lower_form(s, *inner) {
                    then_emit(s, t, |dst: VarId| InstView::Deref(dst, v));
                }
            },
            FormKind::Meta(_, inner) => form_lowers(s, *inner),
            _ => {},
        },
    }
}

proof fn all_lowers(s: LowerView, fs: Seq<Form>, i: int, done: Seq<VarId>)
    requires
        inv(s),
        0 <= i,
        all_below(done, s.next_var),
    ensures
        lowers_all(s, anf::lower_all(s, fs, i, done)),
    decreases fs, fs.len() - i, 0int,
{
    if i < fs.len() {
        form_lowers(s, fs[i]);
        if let Ok((t, v)) = anf::lower_form(s, fs[i]) {
            all_lowers(t, fs, i + 1, done.push(v));
            if let Ok((u, _)) = anf::lower_all(t, fs, i + 1, done.push(v)) {
                step_trans(s, t, u);
            }
        }
    } else {
        step_refl(s);
    }
}

proof fn rest_lowers(s: LowerView, fs: Seq<Form>, i: int, last: VarId)
    requires
        inv(s),
        0 <= i,
        i >= fs.len() ==> last.0 < s.next_var,
    ensures
        lowers(s, anf::lower_rest(s, fs, i, last)),
    decreases fs, fs.len() - i, 0int,
{
    if i < fs.len() {
        form_lowers(s, fs[i]);
        if let Ok((t, v)) = anf::lower_form(s, fs[i]) {
            rest_lowers(t, fs, i + 1, v);
            if let Ok((u, _)) = anf::lower_rest(t, fs, i + 1, v) {
                step_trans(s, t, u);
            }
        }
    } else {
        step_refl(s);
    }
}

proof fn body_lowers(s: LowerView, fs: Seq<Form>, a: int)
    requires
        inv(s),
    ensures
        lowers(s, anf::lower_body(s, fs, a)),
    decreases fs, fs.len() - a, 1int,
{
    if a < 0 || a >= fs.len() {
        const_lowers(s, ConstView::Nil);
    } else {
        rest_lowers(s, fs, a, VarId(0));
    }
}

proof fn or_nil_lowers(s: LowerView, fs: Seq<Form>, a: int)
    requires
        inv(s),
    ensures
        lowers(s, anf::lower_or_nil(s, fs, a)),
    decreases fs, 0int, 0int,
{
    if 0 <= a < fs.len() {
        form_lowers(s, fs[a]);
    } else {
        const_lowers(s, ConstView::Nil);
    }
}

proof fn list_lowers(s: LowerView, fs: Seq<Form>)
    requires
        inv(s),
    ensures
        lowers(s, anf::lower_list(s, fs)),
    decreases fs, fs.len() as int, 2int,
{
    if fs.len() > 0 {
        call_lowers(s, fs);
        if let FormKind::Symbol(name) = fs[0].kind {
            let t = name@;
            if t == "if"@ {
                if_lowers(s, fs);
            } else if t == "do"@ {
                body_lowers(s, fs, 1);
            } else if t == "let"@ || t == "let*"@ {
                let_lowers(s, fs);
            } else if t == "loop"@ || t == "loop*"@ {
                loop_lowers(s, fs);
            } else if t == "recur"@ {
                recur_lowers(s, fs);
            } else if t == "def"@ {
                def_lowers(s, fs);
            } else if t == "fn"@ || t == "fn*"@ {
                fn_lowers(s, fs, 1);
            } else if t == "quote"@ {
                if fs.len() == 2 {
                    quote_lowers(s, fs[1]);
                }
            } else if t == "throw"@ {
                throw_lowers(s, fs);
            } else if t == "set!"@ {
                set_lowers(s, fs);
            } else if t == "defn"@ {
                defn_lowers(s, fs);
            } else if t == "and"@ {
                and_lowers(s, fs, 1);
            } else if t == "or"@ {
                or_lowers(s, fs, 1);
            }
        }
    }
}

proof fn fn_lowers(s: LowerView, fs: Seq<Form>, a: int)
    requires
        inv(s),
    ensures
        lowers(s, anf::lower_fn(s, fs, a)),
{
    if a < fs.len() {
        match fs[a].kind {
            FormKind::Symbol(name) => closure_lowers(s, Some(name@), fs, a + 1),
            _ => closure_lowers(s, None, fs, a),
        }
    }
}

proof fn call_lowers(s: LowerView, fs: Seq<Form>)
    requires
        inv(s),
        fs.len() > 0,
    ensures
        lowers(s, anf::lower_call(s, fs)),
    decreases fs, fs.len() as int, 1int,
{
    let known = match fs[0].kind {
        FormKind::Symbol(name) => anf::known_fn(name@),
        _ => None,
    };
    if let FormKind::Symbol(name) = fs[0].kind {
        known_needs_nothing(name@);
    }
    match known {
        Some(kf) => {
            all_lowers(s, fs, 1, Seq::empty());
            if let Ok((t, vs)) = anf::lower_all(s, fs, 1, Seq::empty()) {
                then_emit(s, t, |dst: VarId| InstView::CallKnown(dst, kf, vs));
            }
        },
        None => {
            form_lowers(s, fs[0]);
            if let Ok((t, callee)) = anf::lower_form(s, fs[0]) {
                all_lowers(t, fs, 1, Seq::empty());
                if let Ok((u, vs)) = anf::lower_all(t, fs, 1, Seq::empty()) {
                    step_trans(s, t, u);
                    then_emit(s, u, |dst: VarId| InstView::Call(dst, callee, vs));
                }
            }
        },
    }
}

proof fn def_lowers(s: LowerView, fs: Seq<Form>)
    requires
        inv(s),
    ensures
        lowers(s, anf::lower_def(s, fs)),
    decreases fs, fs.len() as int, 1int,
{
    if fs.len() >= 2 {
        if let Some(name) = anf::def_name(fs[1].kind) {
            or_nil_lowers(s, fs, 2);
            if let Ok((t, v)) = anf::lower_or_nil(s, fs, 2) {
                then_emit(s, t, |dst: VarId| InstView::DefVar(dst, t.ns, name, v));
            }
        }
    }
}

proof fn defn_lowers(s: LowerView, fs: Seq<Form>)
    requires
        inv(s),
    ensures
        lowers(s, anf::lower_defn(s, fs)),
{
    if fs.len() >= 2 {
        if let FormKind::Symbol(name) = fs[1].kind {
            let from: int = if fs.len() > 3 && fs[2].kind is Str { 3 } else { 2 };
            closure_lowers(s, Some(name@), fs, from);
            if let Ok((t, v)) = anf::lower_closure(s, Some(name@), fs, from) {
                then_emit(s, t, |dst: VarId| InstView::DefVar(dst, t.ns, name@, v));
            }
        }
    }
}

proof fn throw_lowers(s: LowerView, fs: Seq<Form>)
    requires
        inv(s),
    ensures
        lowers(s, anf::lower_throw(s, fs)),
    decreases fs, fs.len() as int, 1int,
{
    if fs.len() == 2 {
        form_lowers(s, fs[1]);
        if let Ok((t, v)) = anf::lower_form(s, fs[1]) {
            emit_keeps(t, InstView::Throw(v));
            let u = anf::emit(t, InstView::Throw(v));
            step_trans(s, t, u);
            dead_end_lowers(u, TermView::Unreachable);
            if let Ok((w, _)) = anf::dead_end(u, TermView::Unreachable) {
                step_trans(s, u, w);
            }
        }
    }
}

proof fn set_lowers(s: LowerView, fs: Seq<Form>)
    requires
        inv(s),
    ensures
        lowers(s, anf::lower_set_bang(s, fs)),
    decreases fs, fs.len() as int, 1int,
{
    if fs.len() == 3 {
        form_lowers(s, fs[1]);
        if let Ok((t, var)) = anf::lower_form(s, fs[1]) {
            form_lowers(t, fs[2]);
            if let Ok((u, v)) = anf::lower_form(t, fs[2]) {
                step_trans(s, t, u);
                emit_keeps(u, InstView::SetBang(var, v));
                step_trans(s, u, anf::emit(u, InstView::SetBang(var, v)));
            }
        }
    }
}

proof fn recur_lowers(s: LowerView, fs: Seq<Form>)
    requires
        inv(s),
    ensures
        lowers(s, anf::lower_recur(s, fs)),
    decreases fs, fs.len() as int, 1int,
{
    if fs.len() > 0 {
        all_lowers(s, fs, 1, Seq::empty());
        if let Ok((t, args)) = anf::lower_all(s, fs, 1, Seq::empty()) {
            if t.headers.len() > 0 {
                let header = t.headers.last().0;
                feed_keeps(t, header, args);
                let u = LowerView { blocks: anf::feed_header(t.blocks, header, t.current, args), ..t };
                step_trans(s, t, u);
                let term = TermView::RecurJump(header, args);
                assert(u.headers[u.headers.len() - 1].0 == header);
                dead_end_lowers(u, term);
                if let Ok((w, _)) = anf::dead_end(u, term) {
                    step_trans(s, u, w);
                }
            }
        }
    }
}

proof fn bindings_lower(s: LowerView, fs: Seq<Form>, i: int)
    requires
        inv(s),
        s.locals.len() > 0,
        0 <= i,
    ensures
        anf::lower_bindings(s, fs, i) matches Ok(t) ==> inv(t) && step(s, t) && t.locals.len() == s.locals.len() && t.locals.drop_last() == s.locals.drop_last(),
    decreases fs, fs.len() - i, 0int,
{
    if i + 1 < fs.len() {
        if let FormKind::Symbol(name) = fs[i].kind {
            form_lowers(s, fs[i + 1]);
            if let Ok((t, v)) = anf::lower_form(s, fs[i + 1]) {
                bind_keeps(t, name@, v);
                let u = anf::bind(t, name@, v);
                step_trans(s, t, u);
                bindings_lower(u, fs, i + 2);
                if let Ok(w) = anf::lower_bindings(u, fs, i + 2) {
                    step_trans(s, u, w);
                }
            }
        }
    } else {
        step_refl(s);
    }
}

/// A scope that is opened.
proof fn push_scope_keeps(s: LowerView)
    requires
        inv(s),
    ensures
        inv(anf::push_scope(s)),
        step(s, anf::push_scope(s)),
{
    let t = anf::push_scope(s);
    assert forall|i: int| 0 <= i < t.locals.len() implies sound_scope(#[trigger] t.locals[i], t.next_var) by {
        if i < s.locals.len() {
            assert(t.locals[i] == s.locals[i]);
        }
    }
    assert forall|id: u32| #[trigger] present(t, id) <==> present(s, id) by {
    }
    assert forall|v: u32| #[trigger] defs(t, v) == defs(s, v) by {
    }
}

/// A scope that is closed.
proof fn pop_scope_keeps(s: LowerView)
    requires
        inv(s),
        s.locals.len() > 0,
    ensures
        inv(anf::pop_scope(s)),
        step(s, anf::pop_scope(s)),
        anf::pop_scope(s).locals == s.locals.drop_last(),
{
    let t = anf::pop_scope(s);
    assert forall|i: int| 0 <= i < t.locals.len() implies sound_scope(#[trigger] t.locals[i], t.next_var) by {
        assert(t.locals[i] == s.locals[i]);
    }
    assert forall|id: u32| #[trigger] present(t, id) <==> present(s, id) by {
    }
    assert forall|v: u32| #[trigger] defs(t, v) == defs(s, v) by {
    }
}

proof fn let_lowers(s: LowerView, fs: Seq<Form>)
    requires
        inv(s),
    ensures
        lowers(s, anf::lower_let(s, fs)),
    decreases fs, fs.len() as int, 1int,
{
    if fs.len() >= 2 {
        if let FormKind::Vector(bs) = fs[1].kind {
            if bs@.len() % 2 == 0 {
                let p = anf::push_scope(s);
                push_scope_keeps(s);
                bindings_lower(p, bs@, 0);
                if let Ok(t) = anf::lower_bindings(p, bs@, 0) {
                    body_lowers(t, fs, 2);
                    if let Ok((u, v)) = anf::lower_body(t, fs, 2) {
                        pop_scope_keeps(u);
                        step_trans(s, p, t);
                        step_trans(s, t, u);
                        step_trans(s, u, anf::pop_scope(u));
                        assert(p.locals.drop_last() =~= s.locals);
                    }
                }
            }
        }
    }
}

/// Numbers that are set aside change nothing else.
proof fn set_aside(s: LowerView, t: LowerView)
    requires
        t == (LowerView { next_block: t.next_block, ..s }),
    ensures
        forall|x: u32| #[trigger] present(t, x) == present(s, x),
        forall|v: u32| #[trigger] defs(t, v) == defs(s, v),
{
    assert forall|x: u32| #[trigger] present(t, x) == present(s, x) by {
    }
    assert forall|v: u32| #[trigger] defs(t, v) == defs(s, v) by {
    }
}

proof fn and_lowers(s: LowerView, fs: Seq<Form>, a: int)
    requires
        inv(s),
    ensures
        lowers(s, anf::lower_and(s, fs, a)),
    decreases fs, fs.len() - a, 1int,
{
    if a < 0 || a >= fs.len() {
        const_lowers(s, ConstView::Bool(true));
    } else {
        form_lowers(s, fs[a]);
        if a + 1 < fs.len() {
            if let Ok((s1, first)) = anf::lower_form(s, fs[a]) {
                fresh_block_keeps(s1);
                if let Ok((s2, rest)) = anf::fresh_block(s1) {
                    fresh_block_keeps(s2);
                    if let Ok((s3, join)) = anf::fresh_block(s2) {
                        let term = TermView::Branch(first, rest, join);
                        set_aside(s1, s3);
                        enter(s3, term, rest);
                        let s4 = anf::start(anf::finish(s3, term), rest);
                        and_lowers(s4, fs, a + 1);
                        if let Ok((s5, v)) = anf::lower_and(s4, fs, a + 1) {
                            assert(!present(s5, join.0)) by {
                                assert(!present(s3, join.0));
                                assert(!present(s4, join.0));
                            }
                            enter(s5, TermView::Jump(join), join);
                            let s6 = anf::start(anf::finish(s5, TermView::Jump(join)), join);
                            assert(step(s1, s6)) by {
                                assert forall|x: u32| #[trigger] present(s6, x) <==> present(s1, x) || s1.next_block <= x < s6.next_block by {
                                    assert(present(s5, x) <==> present(s4, x) || s4.next_block <= x < s5.next_block);
                                    assert(present(s4, x) <==> present(s3, x) || x == rest.0);
                                    assert(present(s3, x) == present(s1, x));
                                }
                                assert forall|x: u32| #[trigger] is_target(s6.blocks, x) implies is_target(s1.blocks, x) || s1.next_block <= x < s6.next_block || is_header(s1, x) by {
                                    if is_target(s5.blocks, x) && is_target(s4.blocks, x) {
                                    }
                                    assert(is_header(s4, x) == is_header(s1, x));
                                }
                                assert forall|x: u32| #[trigger] defs(s6, x) == defs(s1, x) + (if s1.next_var <= x < s6.next_var { 1nat } else { 0nat }) by {
                                    assert(defs(s5, x) == defs(s4, x) + (if s4.next_var <= x < s5.next_var { 1nat } else { 0nat }));
                                    assert(defs(s4, x) == defs(s3, x));
                                    assert(defs(s3, x) == defs(s1, x));
                                }
                            }
                            step_trans(s, s1, s6);
                            then_emit(s, s6, |dst: VarId| InstView::Phi(dst, seq![(s3.current, first), (s5.current, v)]));
                        }
                    }
                }
            }
        }
    }
}

proof fn or_lowers(s: LowerView, fs: Seq<Form>, a: int)
    requires
        inv(s),
    ensures
        lowers(s, anf::lower_or(s, fs, a)),
    decreases fs, fs.len() - a, 1int,
{
    if a < 0 || a >= fs.len() {
        const_lowers(s, ConstView::Nil);
    } else {
        form_lowers(s, fs[a]);
        if a + 1 < fs.len() {
            if let Ok((s1, first)) = anf::lower_form(s, fs[a]) {
                fresh_block_keeps(s1);
                if let Ok((s2, rest)) = anf::fresh_block(s1) {
                    fresh_block_keeps(s2);
                    if let Ok((s3, join)) = anf::fresh_block(s2) {
                        let term = TermView::Branch(first, join, rest);
                        set_aside(s1, s3);
                        enter(s3, term, rest);
                        let s4 = anf::start(anf::finish(s3, term), rest);
                        or_lowers(s4, fs, a + 1);
                        if let Ok((s5, v)) = anf::lower_or(s4, fs, a + 1) {
                            assert(!present(s5, join.0)) by {
                                assert(!present(s3, join.0));
                                assert(!present(s4, join.0));
                            }
                            enter(s5, TermView::Jump(join), join);
                            let s6 = anf::start(anf::finish(s5, TermView::Jump(join)), join);
                            assert(step(s1, s6)) by {
                                assert forall|x: u32| #[trigger] present(s6, x) <==> present(s1, x) || s1.next_block <= x < s6.next_block by {
                                    assert(present(s5, x) <==> present(s4, x) || s4.next_block <= x < s5.next_block);
                                    assert(present(s4, x) <==> present(s3, x) || x == rest.0);
                                    assert(present(s3, x) == present(s1, x));
                                }
                                assert forall|x: u32| #[trigger] is_target(s6.blocks, x) implies is_target(s1.blocks, x) || s1.next_block <= x < s6.next_block || is_header(s1, x) by {
                                    if is_target(s5.blocks, x) && is_target(s4.blocks, x) {
                                    }
                                    assert(is_header(s4, x) == is_header(s1, x));
                                }
                                assert forall|x: u32| #[trigger] defs(s6, x) == defs(s1, x) + (if s1.next_var <= x < s6.next_var { 1nat } else { 0nat }) by {
                                    assert(defs(s5, x) == defs(s4, x) + (if s4.next_var <= x < s5.next_var { 1nat } else { 0nat }));
                                    assert(defs(s4, x) == defs(s3, x));
                                    assert(defs(s3, x) == defs(s1, x));
                                }
                            }
                            step_trans(s, s1, s6);
                            then_emit(s, s6, |dst: VarId| InstView::Phi(dst, seq![(s3.current, first), (s5.current, v)]));
                        }
                    }
                }
            }
        }
    }
}

/// Two ways that are joined: every block is in place.
proof fn both_ways(s1: LowerView, s4: LowerView, s5: LowerView, s6: LowerView, s7: LowerView, s8: LowerView, s9: LowerView, then_block: BlockId, else_block: BlockId, join: BlockId, test: VarId)
    requires
        then_block.0 == s1.next_block,
        else_block.0 == s1.next_block + 1,
        join.0 == s1.next_block + 2,
        s4.next_block == s1.next_block + 3,
        s4 == (LowerView { next_block: s4.next_block, ..s1 }),
        forall|x: u32| #[trigger] present(s4, x) == present(s1, x),
        forall|v: u32| #[trigger] defs(s4, v) == defs(s1, v),
        s5 == anf::start(anf::finish(s4, TermView::Branch(test, then_block, else_block)), then_block),
        forall|x: u32| #[trigger] present(s5, x) <==> present(s4, x) || x == then_block.0,
        forall|x: u32| #[trigger] is_target(s5.blocks, x) ==> is_target(s4.blocks, x) || goes_to(TermView::Branch(test, then_block, else_block), x),
        forall|v: u32| #[trigger] defs(s5, v) == defs(s4, v),
        step(s5, s6),
        s7 == anf::start(anf::finish(s6, TermView::Jump(join)), else_block),
        forall|x: u32| #[trigger] present(s7, x) <==> present(s6, x) || x == else_block.0,
        forall|x: u32| #[trigger] is_target(s7.blocks, x) ==> is_target(s6.blocks, x) || goes_to(TermView::Jump(join), x),
        forall|v: u32| #[trigger] defs(s7, v) == defs(s6, v),
        step(s7, s8),
        s9 == anf::start(anf::finish(s8, TermView::Jump(join)), join),
        forall|x: u32| #[trigger] present(s9, x) <==> present(s8, x) || x == join.0,
        forall|x: u32| #[trigger] is_target(s9.blocks, x) ==> is_target(s8.blocks, x) || goes_to(TermView::Jump(join), x),
        forall|v: u32| #[trigger] defs(s9, v) == defs(s8, v),
    ensures
        step(s1, s9),
{
    assert forall|x: u32| #[trigger] present(s9, x) <==> present(s1, x) || s1.next_block <= x < s9.next_block by {
        assert(present(s8, x) <==> present(s7, x) || s7.next_block <= x < s8.next_block);
        assert(present(s7, x) <==> present(s6, x) || x == else_block.0);
        assert(present(s6, x) <==> present(s5, x) || s5.next_block <= x < s6.next_block);
        assert(present(s5, x) <==> present(s4, x) || x == then_block.0);
    }
    assert forall|x: u32| #[trigger] is_target(s9.blocks, x) implies is_target(s1.blocks, x) || s1.next_block <= x < s9.next_block || is_header(s1, x) by {
        if is_target(s8.blocks, x) && is_target(s7.blocks, x) && is_target(s6.blocks, x) && is_target(s5.blocks, x) {
        }
        assert(is_header(s5, x) == is_header(s1, x));
        assert(is_header(s7, x) == is_header(s1, x));
    }
    assert forall|x: u32| #[trigger] defs(s9, x) == defs(s1, x) + (if s1.next_var <= x < s9.next_var { 1nat } else { 0nat }) by {
        assert(defs(s8, x) == defs(s7, x) + (if s7.next_var <= x < s8.next_var { 1nat } else { 0nat }));
        assert(defs(s6, x) == defs(s5, x) + (if s5.next_var <= x < s6.next_var { 1nat } else { 0nat }));
    }
}

proof fn if_lowers(s: LowerView, fs: Seq<Form>)
    requires
        inv(s),
    ensures
        lowers(s, anf::lower_if(s, fs)),
    decreases fs, fs.len() as int, 1int,
{
    if 2 <= fs.len() <= 4 {
        form_lowers(s, fs[1]);
        if let Ok((s1, test)) = anf::lower_form(s, fs[1]) {
            fresh_block_keeps(s1);
            if let Ok((s2, then_block)) = anf::fresh_block(s1) {
                fresh_block_keeps(s2);
                if let Ok((s3, else_block)) = anf::fresh_block(s2) {
                    fresh_block_keeps(s3);
                    if let Ok((s4, join)) = anf::fresh_block(s3) {
                        let term = TermView::Branch(test, then_block, else_block);
                        set_aside(s1, s2);
                        set_aside(s1, s3);
                        set_aside(s1, s4);
                        enter(s4, term, then_block);
                        let s5 = anf::start(anf::finish(s4, term), then_block);
                        or_nil_lowers(s5, fs, 2);
                        if let Ok((s6, then_val)) = anf::lower_or_nil(s5, fs, 2) {
                            assert(!present(s6, else_block.0) && !present(s6, join.0)) by {
                                assert(!present(s5, else_block.0));
                                assert(!present(s5, join.0));
                            }
                            enter(s6, TermView::Jump(join), else_block);
                            let s7 = anf::start(anf::finish(s6, TermView::Jump(join)), else_block);
                            or_nil_lowers(s7, fs, 3);
                            if let Ok((s8, else_val)) = anf::lower_or_nil(s7, fs, 3) {
                                assert(!present(s8, join.0)) by {
                                    assert(!present(s7, join.0));
                                }
                                enter(s8, TermView::Jump(join), join);
                                let s9 = anf::start(anf::finish(s8, TermView::Jump(join)), join);
                                both_ways(s1, s4, s5, s6, s7, s8, s9, then_block, else_block, join, test);
                                step_trans(s, s1, s9);
                                then_emit(s, s9, |dst: VarId| InstView::Phi(dst, seq![(s6.current, then_val), (s8.current, else_val)]));
                            }
                        }
                    }
                }
            }
        }
    }
}

proof fn inits_lower(s: LowerView, fs: Seq<Form>, i: int, names: Seq<Seq<char>>, vars: Seq<VarId>)
    requires
        inv(s),
        0 <= i,
        names.len() == vars.len(),
        all_below(vars, s.next_var),
    ensures
        anf::lower_inits(s, fs, i, names, vars) matches Ok((t, ns, vs)) ==> inv(t) && step(s, t) && t.locals == s.locals && ns.len() == vs.len() && all_below(vs, t.next_var),
    decreases fs, fs.len() - i, 0int,
{
    if i + 1 < fs.len() {
        if let FormKind::Symbol(name) = fs[i].kind {
            form_lowers(s, fs[i + 1]);
            if let Ok((t, v)) = anf::lower_form(s, fs[i + 1]) {
                inits_lower(t, fs, i + 2, names.push(name@), vars.push(v));
                if let Ok((u, _, _)) = anf::lower_inits(t, fs, i + 2, names.push(name@), vars.push(v)) {
                    step_trans(s, t, u);
                }
            }
        }
    } else {
        step_refl(s);
    }
}

proof fn loop_phis_lower(s: LowerView, init: BlockId, names: Seq<Seq<char>>, vars: Seq<VarId>, i: int, done: Seq<VarId>)
    requires
        inv(s),
        s.locals.len() > 0,
        s.blocks.len() > 0,
        0 <= i,
        names.len() == vars.len(),
        all_below(vars, s.next_var),
    ensures
        anf::loop_phis(s, init, names, vars, i, done) matches Ok((t, _)) ==> inv(t) && step(s, t) && t.locals.len() == s.locals.len()
            && t.locals.drop_last() == s.locals.drop_last() && t.current == s.current && t.blocks == s.blocks && t.next_block == s.next_block,
    decreases names.len() - i,
{
    if i < names.len() {
        let f = |dst: VarId| InstView::Phi(dst, seq![(init, vars[i])]);
        emit_value_lowers(s, f);
        if let Ok((t, p)) = anf::emit_value(s, f) {
            bind_keeps(t, names[i], p);
            let u = anf::bind(t, names[i], p);
            step_trans(s, t, u);
            loop_phis_lower(u, init, names, vars, i + 1, done.push(p));
            if let Ok((w, _)) = anf::loop_phis(u, init, names, vars, i + 1, done.push(p)) {
                step_trans(s, u, w);
            }
        }
    } else {
        step_refl(s);
    }
}

proof fn loop_lowers(s: LowerView, fs: Seq<Form>)
    requires
        inv(s),
    ensures
        lowers(s, anf::lower_loop(s, fs)),
    decreases fs, fs.len() as int, 1int,
{
    if fs.len() >= 2 {
        if let FormKind::Vector(bs) = fs[1].kind {
            if bs@.len() % 2 == 0 {
                inits_lower(s, bs@, 0, Seq::empty(), Seq::empty());
                if let Ok((s1, names, vars)) = anf::lower_inits(s, bs@, 0, Seq::empty(), Seq::empty()) {
                    fresh_block_keeps(s1);
                    if let Ok((s2, header)) = anf::fresh_block(s1) {
                        set_aside(s1, s2);
                        let into = TermView::Jump(header);
                        enter(s2, into, header);
                        let h = anf::start(anf::finish(s2, into), header);
                        push_scope_keeps(h);
                        let s3 = anf::push_scope(h);
                        loop_phis_lower(s3, s2.current, names, vars, 0, Seq::empty());
                        if let Ok((s4, phis)) = anf::loop_phis(s3, s2.current, names, vars, 0, Seq::empty()) {
                            let b = LowerView { headers: s4.headers.push((header, phis)), ..s4 };
                            assert(inv(b));
                            body_lowers(b, fs, 2);
                            if let Ok((s5, v)) = anf::lower_body(b, fs, 2) {
                                loop_ends(s1, s2, h, s3, s4, b, s5, header, phis);
                                let s6 = anf::pop_header(s5);
                                if let Ok((s7, exit)) = anf::fresh_block(s6) {
                                    let out = TermView::Jump(exit);
                                    let s8 = anf::start(anf::pop_scope(anf::finish(s7, out)), exit);
                                    step_trans(s, s1, s8);
                                    then_emit(s, s8, |dst: VarId| InstView::Phi(dst, seq![(s5.current, v)]));
                                }
                            }
                        }
                    }
                }
            }
        }
    }
}

/// The end of a loop: its scope and its header are gone, and its blocks are in place.
proof fn loop_ends(s1: LowerView, s2: LowerView, h: LowerView, s3: LowerView, s4: LowerView, b: LowerView, s5: LowerView, header: BlockId, phis: Seq<VarId>)
    requires
        anf::fresh_block(s1) == Ok::<(LowerView, BlockId), LowerErrorView>((s2, header)),
        s2.next_block == s1.next_block + 1,
        forall|x: u32| #[trigger] present(s2, x) == present(s1, x),
        forall|v: u32| #[trigger] defs(s2, v) == defs(s1, v),
        h == anf::start(anf::finish(s2, TermView::Jump(header)), header),
        forall|x: u32| #[trigger] present(h, x) <==> present(s2, x) || x == header.0,
        forall|x: u32| #[trigger] is_target(h.blocks, x) ==> is_target(s2.blocks, x) || goes_to(TermView::Jump(header), x),
        forall|v: u32| #[trigger] defs(h, v) == defs(s2, v),
        s3 == anf::push_scope(h),
        step(h, s3),
        step(s3, s4),
        s4.locals.len() == s3.locals.len(),
        s4.locals.drop_last() == s3.locals.drop_last(),
        b == (LowerView { headers: s4.headers.push((header, phis)), ..s4 }),
        step(b, s5),
        inv(s5),
        s5.locals == b.locals,
    ensures
        ({
            let s6 = anf::pop_header(s5);
            match anf::fresh_block(s6) {
                Ok((s7, exit)) => {
                    let s8 = anf::start(anf::pop_scope(anf::finish(s7, TermView::Jump(exit))), exit);
                    inv(s8) && step(s1, s8) && s8.locals == s1.locals && s8.next_var == s5.next_var
                },
                Err(_) => true,
            }
        }),
{
    let s6 = anf::pop_header(s5);
    assert(s6.headers =~= s4.headers);
    assert(inv(s6));
    fresh_block_keeps(s6);
    if let Ok((s7, exit)) = anf::fresh_block(s6) {
        let out = TermView::Jump(exit);
        enter(s7, out, exit);
        let e = anf::start(anf::finish(s7, out), exit);
        pop_scope_keeps(e);
        let s8 = anf::pop_scope(e);
        assert(s8 == anf::start(anf::pop_scope(anf::finish(s7, out)), exit));
        assert(s3.locals.drop_last() =~= h.locals);
        step_trans(h, s3, s4);
        assert forall|x: u32| #[trigger] present(s8, x) <==> present(s1, x) || s1.next_block <= x < s8.next_block by {
            assert(present(s8, x) <==> present(e, x) || e.next_block <= x < s8.next_block);
            assert(present(e, x) <==> present(s7, x) || x == exit.0);
            assert(present(s7, x) == present(s5, x));
            assert(present(s5, x) <==> present(b, x) || b.next_block <= x < s5.next_block);
            assert(present(b, x) == present(s4, x));
            assert(present(s4, x) <==> present(h, x) || h.next_block <= x < s4.next_block);
            assert(present(h, x) <==> present(s2, x) || x == header.0);
        }
        assert forall|x: u32| #[trigger] is_target(s8.blocks, x) implies is_target(s1.blocks, x) || s1.next_block <= x < s8.next_block || is_header(s1, x) by {
            if is_target(s5.blocks, x) {
                if is_header(b, x) {
                    let k = choose|k: int| 0 <= k < b.headers.len() && (#[trigger] b.headers[k]).0.0 == x;
                    if k < s4.headers.len() {
                        assert(s4.headers[k].0.0 == x);
                        assert(is_header(s1, x));
                    }
                } else if is_target(s4.blocks, x) && is_target(h.blocks, x) {
                }
                if is_header(h, x) {
                    assert(is_header(s1, x));
                }
            }
        }
        assert forall|x: u32| #[trigger] defs(s8, x) == defs(s1, x) + (if s1.next_var <= x < s8.next_var { 1nat } else { 0nat }) by {
            assert(defs(s8, x) == defs(e, x) + (if e.next_var <= x < s8.next_var { 1nat } else { 0nat }));
            assert(defs(e, x) == defs(s7, x));
            assert(defs(s7, x) == defs(s5, x));
            assert(defs(s5, x) == defs(b, x) + (if b.next_var <= x < s5.next_var { 1nat } else { 0nat }));
            assert(defs(b, x) == defs(s4, x));
            assert(defs(s4, x) == defs(h, x) + (if h.next_var <= x < s4.next_var { 1nat } else { 0nat }));
            assert(defs(h, x) == defs(s2, x));
        }
    }
}

/// Nothing but parameters so far: as many as there are values.
spec fn only_params(s: LowerView) -> bool {
    &&& inv(s)
    &&& s.locals.len() > 0
    &&& s.headers.len() == 0
    &&& s.blocks.len() == 0
    &&& s.insts.len() == 0
    &&& s.current.0 == 0
    &&& s.next_block == 1
    &&& forall|v: u32| #[trigger] param_definitions(s.params, v) == (if v < s.next_var { 1nat } else { 0nat })
}

proof fn params_lower(s: LowerView, names: Seq<String>, i: int)
    requires
        only_params(s),
        0 <= i,
    ensures
        anf::add_params(s, names, i) matches Ok(t) ==> only_params(t),
    decreases names.len() - i,
{
    if i < names.len() {
        if let Ok((s1, v)) = anf::fresh_var(s) {
            widen(s, s1);
            let s2 = LowerView { params: s1.params.push((names[i]@, v)), ..s1 };
            assert(inv(s2));
            bind_keeps(s2, names[i]@, v);
            let s3 = anf::bind(s2, names[i]@, v);
            assert forall|x: u32| #[trigger] param_definitions(s3.params, x) == (if x < s3.next_var { 1nat } else { 0nat }) by {
                assert(s3.params == s.params.push((names[i]@, v)));
                assert(s3.params.drop_last() =~= s.params);
                assert(param_definitions(s.params, x) == (if x < s.next_var { 1nat } else { 0nat }));
            }
            params_lower(s3, names, i + 1);
        }
    }
}

/// The parameters bear these names, in order, and are the first values.
pub open spec fn are_named(params: Seq<(Seq<char>, VarId)>, names: Seq<String>, n: int) -> bool {
    &&& params.len() == n
    &&& forall|k: int| 0 <= k < n ==> (#[trigger] params[k]).0 == names[k]@ && params[k].1.0 == k
}

proof fn params_are_named(s: LowerView, names: Seq<String>, i: int)
    requires
        0 <= i <= names.len(),
        s.next_var == i,
        are_named(s.params, names, i),
    ensures
        anf::add_params(s, names, i) matches Ok(t) ==> are_named(t.params, names, names.len() as int),
    decreases names.len() - i,
{
    if i < names.len() {
        if let Ok((s1, v)) = anf::fresh_var(s) {
            let s2 = LowerView { params: s1.params.push((names[i]@, v)), ..s1 };
            let s3 = anf::bind(s2, names[i]@, v);
            assert(s3.params == s.params.push((names[i]@, v)));
            params_are_named(s3, names, i + 1);
        }
    }
}

/// A parameter is counted among the definitions of its value.
pub proof fn a_param_defines(params: Seq<(Seq<char>, VarId)>, i: int)
    requires
        0 <= i < params.len(),
    ensures
        param_definitions(params, params[i].1.0) >= 1,
        forall|j: int| 0 <= j < params.len() && j != i && (#[trigger] params[j]).1 == params[i].1 ==> param_definitions(params, params[i].1.0) >= 2,
    decreases params.len(),
{
    let rest = params.drop_last();
    let last = params.len() - 1;
    if i < last {
        a_param_defines(rest, i);
        assert forall|j: int| 0 <= j < params.len() && j != i && (#[trigger] params[j]).1 == params[i].1 implies param_definitions(params, params[i].1.0) >= 2 by {
            if j < last {
                assert(rest[j].1 == rest[i].1);
            }
        }
    } else {
        assert forall|j: int| 0 <= j < params.len() && j != i && (#[trigger] params[j]).1 == params[i].1 implies param_definitions(params, params[i].1.0) >= 2 by {
            a_param_defines(rest, j);
            assert(rest[j] == params[j]);
        }
    }
}

/// Blocks that are numbered apart, by all the numbers below `n`, are `n`.
proof fn numbers_are_used_up(blocks: Seq<BlockView>, n: u32)
    requires
        forall|j: int, k: int| 0 <= j < k < blocks.len() ==> (#[trigger] blocks[j]).id != (#[trigger] blocks[k]).id,
        forall|id: u32| #[trigger] has_id(blocks, id) <==> id < n,
    ensures
        blocks.len() == n,
{
    let ids = blocks.map_values(|b: BlockView| b.id.0 as int);
    let all = vstd::set_lib::set_int_range(0, n as int);
    assert(ids.no_duplicates()) by {
        assert forall|j: int, k: int| 0 <= j < ids.len() && 0 <= k < ids.len() && j != k implies ids[j] != ids[k] by {
            if j < k {
                assert(blocks[j].id != blocks[k].id);
            } else {
                assert(blocks[k].id != blocks[j].id);
            }
        }
    }
    assert(ids.to_set() =~= all) by {
        assert forall|x: int| ids.to_set().contains(x) <==> all.contains(x) by {
            if ids.contains(x) {
                let k = choose|k: int| 0 <= k < ids.len() && ids[k] == x;
                assert(has_id(blocks, blocks[k].id.0));
            }
            if all.contains(x) {
                let id = x as u32;
                assert(has_id(blocks, id));
                let k = choose|k: int| 0 <= k < blocks.len() && (#[trigger] blocks[k]).id.0 == id;
                assert(ids[k] == x);
            }
        }
    }
    vstd::set_lib::lemma_int_range(0, n as int);
    ids.unique_seq_to_set();
}

/// Every function that lowering makes is whole: its blocks are numbered apart and lead to one
/// another alone, and every value that it reads is its own and defined once.  Its parameters keep their
/// names, in order.
pub proof fn lowered_functions_are_whole(name: Option<Seq<char>>, ns: Seq<char>, params: Seq<String>, body: Seq<Form>)
    ensures
        anf::lower_function(anf::initial(name, ns), params, body) matches Ok(f) ==> is_whole(f) && are_named(f.params, params, params.len() as int),
{
    let s = anf::initial(name, ns);
    assert(only_params(s));
    params_lower(s, params, 0);
    params_are_named(s, params, 0);
    if let Ok(s1) = anf::add_params(s, params, 0) {
        body_lowers(s1, body, 0);
        if let Ok((s2, v)) = anf::lower_body(s1, body, 0) {
            let s3 = anf::finish(s2, TermView::Return(v));
            ends(s2, TermView::Return(v));
            let f = anf::built(s3);
            assert(f.blocks.drop_last() =~= s2.blocks);
            assert forall|id: u32| #[trigger] has_id(f.blocks, id) <==> id < f.next_block by {
                assert(present(s2, id) <==> present(s1, id) || s1.next_block <= id < s2.next_block);
                assert(present(s1, id) <==> id == 0);
            }
            numbers_are_used_up(f.blocks, f.next_block);
            assert forall|id: u32| is_target(f.blocks, id) implies #[trigger] has_id(f.blocks, id) by {
                assert(is_target(s2.blocks, id));
                assert(!is_target(s1.blocks, id));
                assert(!is_header(s1, id));
                assert(present(s2, id));
            }
            assert forall|x: u32| x < f.next_var implies param_definitions(f.params, x) + #[trigger] block_definitions(f.blocks, x) == 1 by {
                assert(defs(s2, x) == defs(s1, x) + (if s1.next_var <= x < s2.next_var { 1nat } else { 0nat }));
                assert(param_definitions(s1.params, x) == (if x < s1.next_var { 1nat } else { 0nat }));
            }
            assert forall|i: int| 0 <= i < f.params.len() implies (#[trigger] f.params[i]).1.0 < f.next_var by {
                a_param_defines(f.params, i);
                let x = f.params[i].1.0;
                assert(defs(s2, x) == defs(s1, x) + (if s1.next_var <= x < s2.next_var { 1nat } else { 0nat }));
                assert(param_definitions(s1.params, x) == (if x < s1.next_var { 1nat } else { 0nat }));
            }
        }
    }
}

/// A whole function can be translated: every block that it names exists, and its instructions have
/// the operands that they cannot do without and name nothing that has to be declared before.
pub proof fn whole_functions_can_be_translated(f: IrFunction, funcs: Seq<Seq<char>>)
    requires
        is_whole(ir::function_view(f)),
    ensures
        emission::function_ok(f),
        forall|b: int| 0 <= b < f.blocks@.len() ==> soundness::block_supported(#[trigger] f.blocks@[b], funcs, f.spec_takes_region_param()),
{
    let view = ir::function_view(f);
    let blocks = f.blocks@;
    assert(view.blocks == ir::blocks_view(blocks));
    assert forall|j: int| 0 <= j < blocks.len() implies emission::names_blocks(blocks, (#[trigger] blocks[j]).terminator) by {
        let t = blocks[j].terminator;
        assert(view.blocks[j].terminator == t@);
        assert forall|id: u32| goes_to(t@, id) implies #[trigger] emission::has_block(blocks, BlockId(id)) by {
            assert(goes_to(view.blocks[j].terminator, id));
            assert(has_id(view.blocks, id));
            let k = choose|k: int| 0 <= k < view.blocks.len() && (#[trigger] view.blocks[k]).id.0 == id;
            assert(blocks[k].id == BlockId(id));
        }
        match t {
            Terminator::Jump(b) => assert(emission::has_block(blocks, BlockId(b.0))),
            Terminator::Branch { cond, then_block, else_block } => {
                assert(emission::has_block(blocks, BlockId(then_block.0)));
                assert(emission::has_block(blocks, BlockId(else_block.0)));
            },
            Terminator::RecurJump { target, args } => assert(emission::has_block(blocks, BlockId(target.0))),
            _ => {},
        }
    }
    assert forall|j: int, i: int| 0 <= j < blocks.len() && 0 <= i < blocks[j].insts@.len() implies emission::inst_ok(#[trigger] blocks[j].insts@[i]) by {
        inst_of_whole(f, j, i, funcs);
    }
    assert forall|b: int| 0 <= b < blocks.len() implies soundness::block_supported(#[trigger] blocks[b], funcs, f.spec_takes_region_param()) by {
        assert forall|i: int| 0 <= i < blocks[b].insts@.len() implies soundness::is_supported(#[trigger] blocks[b].insts@[i], funcs, f.spec_takes_region_param()) by {
            inst_of_whole(f, b, i, funcs);
        }
    }
}

proof fn inst_of_whole(f: IrFunction, j: int, i: int, funcs: Seq<Seq<char>>)
    requires
        is_whole(ir::function_view(f)),
        0 <= j < f.blocks@.len(),
        0 <= i < f.blocks@[j].insts@.len(),
    ensures
        emission::inst_ok(f.blocks@[j].insts@[i]),
        soundness::is_supported(f.blocks@[j].insts@[i], funcs, f.spec_takes_region_param()),
{
    let view = ir::function_view(f);
    let inst = f.blocks@[j].insts@[i];
    assert(sound_block(view.blocks[j], view.next_var));
    assert(view.blocks[j].insts[i] == inst@);
    assert(sound_inst(inst@, view.next_var));
    if let Inst::AllocClosure(d, t, vs) = inst {
        assert(t@.arity_fn_names.len() == 0);
        assert(t.arity_fn_names@.len() == 0);
    }
}

} // verus!
