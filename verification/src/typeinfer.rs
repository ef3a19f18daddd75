//! Scalar representation inference.
//!
//! Every value of a function gets a machine representation: a raw integer, float or boolean where
//! its whole dataflow agrees on one, and a boxed pointer otherwise.  The representations form a
//! flat lattice: nothing known, one of the three unboxed ones, boxed.
use crate::ir;
use crate::ir::{find_block, Block, BlockId, Const, Inst, IrFunction, KnownFn, Repr, Terminator, VarId};
use std::collections::HashMap;
use vstd::prelude::*;

verus! {

broadcast use vstd::std_specs::hash::group_hash_axioms;

/// `a` is below `b`: nothing known is below everything, boxed above everything.
pub open spec fn below(a: Option<Repr>, b: Option<Repr>) -> bool {
    a is None || b == Some(Repr::Boxed) || a == b
}

/// The least element above both.
pub open spec fn join(a: Option<Repr>, b: Option<Repr>) -> Option<Repr> {
    match (a, b) {
        (None, x) => x,
        (x, None) => x,
        (Some(x), Some(y)) => if x == y { Some(x) } else { Some(Repr::Boxed) },
    }
}

/// Combines what is known of one value from two sides.
pub fn meet(a: Option<Repr>, b: Option<Repr>) -> (r: Option<Repr>)
    ensures
        r == join(a, b),
{
    match (a, b) {
        (None, x) => x,
        (x, None) => x,
        (Some(x), Some(y)) => if x == y { Some(x) } else { Some(Repr::Boxed) },
    }
}

pub open spec fn is_number(r: Repr) -> bool {
    r == Repr::Long || r == Repr::Double
}

/// What addition, subtraction and multiplication yield.
pub open spec fn arith(a: Option<Repr>, b: Option<Repr>) -> Option<Repr> {
    match (a, b) {
        (Some(x), Some(y)) => if x == Repr::Long && y == Repr::Long {
            Some(Repr::Long)
        } else if is_number(x) && is_number(y) {
            Some(Repr::Double)
        } else {
            Some(Repr::Boxed)
        },
        _ => None,
    }
}

/// What an ordered comparison yields.
pub open spec fn comparison(a: Option<Repr>, b: Option<Repr>) -> Option<Repr> {
    match (a, b) {
        (Some(x), Some(y)) => if is_number(x) && is_number(y) {
            Some(Repr::Bool)
        } else {
            Some(Repr::Boxed)
        },
        _ => None,
    }
}

/// What an operation yields that is unboxed on two operands of `operand` alone.
pub open spec fn only_on(operand: Repr, result: Repr, a: Option<Repr>, b: Option<Repr>) -> Option<Repr> {
    match (a, b) {
        (Some(x), Some(y)) => if x == operand && y == operand {
            Some(result)
        } else {
            Some(Repr::Boxed)
        },
        _ => None,
    }
}

/// The result of addition, subtraction or multiplication on operands of the given representations.
pub fn arith_result(a: Option<Repr>, b: Option<Repr>) -> (r: Option<Repr>)
    ensures
        r == arith(a, b),
{
    match (a, b) {
        (Some(Repr::Long), Some(Repr::Long)) => Some(Repr::Long),
        (Some(Repr::Long), Some(Repr::Double)) => Some(Repr::Double),
        (Some(Repr::Double), Some(Repr::Long)) => Some(Repr::Double),
        (Some(Repr::Double), Some(Repr::Double)) => Some(Repr::Double),
        (Some(_), Some(_)) => Some(Repr::Boxed),
        _ => None,
    }
}

/// The result of an ordered comparison on operands of the given representations.
pub fn cmp_result(a: Option<Repr>, b: Option<Repr>) -> (r: Option<Repr>)
    ensures
        r == comparison(a, b),
{
    match (a, b) {
        (Some(x), Some(y)) => {
            let left = x == Repr::Long || x == Repr::Double;
            let right = y == Repr::Long || y == Repr::Double;
            if left && right { Some(Repr::Bool) } else { Some(Repr::Boxed) }
        },
        _ => None,
    }
}

fn only_on_result(operand: Repr, result: Repr, a: Option<Repr>, b: Option<Repr>) -> (r: Option<Repr>)
    ensures
        r == only_on(operand, result, a, b),
{
    match (a, b) {
        (Some(x), Some(y)) => if x == operand && y == operand {
            Some(result)
        } else {
            Some(Repr::Boxed)
        },
        _ => None,
    }
}

/// What `m` says of `v`; a missing entry means that nothing is known.
pub open spec fn at(m: Map<u32, Repr>, v: VarId) -> Option<Repr> {
    if m.dom().contains(v.0) { Some(m[v.0]) } else { None }
}

/// `m` is below `n` at every value.
pub open spec fn map_below(m: Map<u32, Repr>, n: Map<u32, Repr>) -> bool {
    forall|v: VarId| below(#[trigger] at(m, v), at(n, v))
}

/// What a call of a known function on two operands yields.
pub open spec fn known_result(kf: KnownFn, a: Option<Repr>, b: Option<Repr>) -> Option<Repr> {
    match kf {
        KnownFn::Add | KnownFn::Sub | KnownFn::Mul => arith(a, b),
        KnownFn::Div => only_on(Repr::Double, Repr::Double, a, b),
        KnownFn::Lt | KnownFn::Gt | KnownFn::Lte | KnownFn::Gte => comparison(a, b),
        KnownFn::Eq => only_on(Repr::Long, Repr::Bool, a, b),
        _ => Some(Repr::Boxed),
    }
}

pub open spec fn const_repr(c: Const) -> Repr {
    match c {
        Const::Long(_) => Repr::Long,
        Const::Double(_) => Repr::Double,
        Const::Bool(_) => Repr::Bool,
        _ => Repr::Boxed,
    }
}

/// What the first `n` inputs of a phi agree on.
pub open spec fn phi_join(entries: Seq<(BlockId, VarId)>, m: Map<u32, Repr>, n: int) -> Option<Repr>
    decreases n,
{
    if n <= 0 {
        None
    } else {
        join(phi_join(entries, m, n - 1), at(m, entries[n - 1].1))
    }
}

/// What an instruction says of the value that it defines, given what `m` says of its operands.
pub open spec fn inst_result(inst: Inst, m: Map<u32, Repr>) -> Option<Repr> {
    match inst {
        Inst::Const(_, c) => Some(const_repr(c)),
        Inst::Phi(_, entries) => phi_join(entries@, m, entries@.len() as int),
        Inst::CallKnown(_, kf, args) => if args@.len() == 2 {
            known_result(kf, at(m, args@[0]), at(m, args@[1]))
        } else {
            Some(Repr::Boxed)
        },
        _ => Some(Repr::Boxed),
    }
}

/// `m` respects what `inst` says.
pub open spec fn respects_inst(inst: Inst, m: Map<u32, Repr>) -> bool {
    match inst.spec_dst() {
        Some(d) => below(inst_result(inst, m), at(m, d)),
        None => true,
    }
}

/// `m` respects that the argument at `k` of a jump back feeds the phi at `k`.
pub open spec fn respects_arg(phis: Seq<Inst>, args: Seq<VarId>, k: int, m: Map<u32, Repr>) -> bool {
    match phis[k] {
        Inst::Phi(d, _) => below(at(m, args[k]), at(m, d)),
        _ => true,
    }
}

/// `m` respects that the arguments of a jump back feed the phis by position.
pub open spec fn respects_args(phis: Seq<Inst>, args: Seq<VarId>, m: Map<u32, Repr>) -> bool {
    forall|k: int| 0 <= k < phis.len() && k < args.len() ==> #[trigger] respects_arg(phis, args, k, m)
}

/// `m` respects what the jump back at the end of `b` feeds to the phis of its target.
pub open spec fn respects_recur(blocks: Seq<Block>, b: Block, m: Map<u32, Repr>) -> bool {
    match b.terminator {
        Terminator::RecurJump { target, args } => {
            let t = ir::first_block(blocks, target, 0);
            t < blocks.len() ==> respects_args(blocks[t].phis@, args@, m)
        },
        _ => true,
    }
}

/// `m` respects everything that `b` says.
pub open spec fn respects_block(blocks: Seq<Block>, b: Block, m: Map<u32, Repr>) -> bool {
    &&& forall|i: int| 0 <= i < b.phis@.len() ==> respects_inst(#[trigger] b.phis@[i], m)
    &&& forall|i: int| 0 <= i < b.insts@.len() ==> respects_inst(#[trigger] b.insts@[i], m)
    &&& respects_recur(blocks, b, m)
}

/// What is known of the first `n` parameters before the body is looked at.
pub open spec fn param_seeds(params: Seq<(String, VarId)>, specs: Seq<Repr>, n: int) -> Map<u32, Repr>
    decreases n,
{
    if n <= 0 {
        Map::empty()
    } else {
        let r = if n - 1 < specs.len() { specs[n - 1] } else { Repr::Boxed };
        param_seeds(params, specs, n - 1).insert(params[n - 1].1.0, r)
    }
}

/// `base`, joined with the first `n` hints.
pub open spec fn with_hints(base: Map<u32, Repr>, hints: Seq<(VarId, Repr)>, n: int) -> Map<u32, Repr>
    decreases n,
{
    if n <= 0 {
        base
    } else {
        let m = with_hints(base, hints, n - 1);
        let (v, r) = hints[n - 1];
        m.insert(v.0, join(at(m, v), Some(r))->0)
    }
}

/// What is known before the body is looked at: the parameters from `specs` (boxed where that is
/// short), joined with the type hints.
pub open spec fn seeds(func: IrFunction, specs: Seq<Repr>) -> Map<u32, Repr> {
    with_hints(
        param_seeds(func.params@, specs, func.params@.len() as int),
        func.local_seed_reprs@,
        func.local_seed_reprs@.len() as int,
    )
}

/// `m` is above the seeds and respects every block.
pub open spec fn is_solution(func: IrFunction, specs: Seq<Repr>, m: Map<u32, Repr>) -> bool {
    &&& map_below(seeds(func, specs), m)
    &&& forall|i: int|
        0 <= i < func.blocks@.len() ==> respects_block(func.blocks@, #[trigger] func.blocks@[i], m)
}

/// `m` is the solution below every other.
pub open spec fn is_least_solution(func: IrFunction, specs: Seq<Repr>, m: Map<u32, Repr>) -> bool {
    &&& is_solution(func, specs, m)
    &&& forall|n: Map<u32, Repr>| #[trigger] is_solution(func, specs, n) ==> map_below(m, n)
}

/// What inference is after: the least solution.
pub open spec fn solution(func: IrFunction, specs: Seq<Repr>) -> Map<u32, Repr> {
    choose|m: Map<u32, Repr>| is_least_solution(func, specs, m)
}

/// The entries of `m` that stand for an unboxed representation.
pub open spec fn unboxed(m: Map<u32, Repr>) -> Map<u32, Repr> {
    Map::new(|v: u32| m.dom().contains(v) && m[v] != Repr::Boxed, |v: u32| m[v])
}

/// Below is transitive.
proof fn below_transitive(a: Option<Repr>, b: Option<Repr>, c: Option<Repr>)
    requires
        below(a, b),
        below(b, c),
    ensures
        below(a, c),
{
}

proof fn map_below_transitive(a: Map<u32, Repr>, b: Map<u32, Repr>, c: Map<u32, Repr>)
    requires
        map_below(a, b),
        map_below(b, c),
    ensures
        map_below(a, c),
{
    assert forall|v: VarId| below(#[trigger] at(a, v), at(c, v)) by {
        assert(below(at(a, v), at(b, v)));
        assert(below(at(b, v), at(c, v)));
    }
}

/// The join is commutative, associative and idempotent, and the least element above both sides.
pub proof fn join_laws(a: Option<Repr>, b: Option<Repr>, c: Option<Repr>)
    ensures
        join(a, b) == join(b, a),
        join(a, join(b, c)) == join(join(a, b), c),
        join(a, a) == a,
        below(a, join(a, b)),
        below(b, join(a, b)),
        below(a, c) && below(b, c) ==> below(join(a, b), c),
{
}

proof fn phi_join_monotone(entries: Seq<(BlockId, VarId)>, m: Map<u32, Repr>, n: Map<u32, Repr>, k: int)
    requires
        map_below(m, n),
        k <= entries.len(),
    ensures
        below(phi_join(entries, m, k), phi_join(entries, n, k)),
    decreases k,
{
    if k > 0 {
        phi_join_monotone(entries, m, n, k - 1);
        let v = entries[k - 1].1;
        assert(below(at(m, v), at(n, v)));
    }
}

/// The more is known of the operands, the more is known of the result.
pub proof fn inst_result_monotone(inst: Inst, m: Map<u32, Repr>, n: Map<u32, Repr>)
    requires
        map_below(m, n),
    ensures
        below(inst_result(inst, m), inst_result(inst, n)),
{
    match inst {
        Inst::Phi(_, entries) => {
            phi_join_monotone(entries@, m, n, entries@.len() as int);
        },
        Inst::CallKnown(_, kf, args) => {
            if args@.len() == 2 {
                assert(below(at(m, args@[0]), at(n, args@[0])));
                assert(below(at(m, args@[1]), at(n, args@[1])));
            }
        },
        _ => {},
    }
}

/// How often what is known of a value can still change.
spec fn room(r: Option<Repr>) -> int {
    match r {
        None => 2,
        Some(Repr::Boxed) => 0,
        Some(_) => 1,
    }
}

spec fn insts_room(insts: Seq<Inst>, m: Map<u32, Repr>, n: int) -> int
    decreases n,
{
    if n <= 0 {
        0
    } else {
        insts_room(insts, m, n - 1) + (match insts[n - 1].spec_dst() {
            Some(d) => room(at(m, d)),
            None => 0,
        })
    }
}

spec fn total_room(blocks: Seq<Block>, m: Map<u32, Repr>, n: int) -> int
    decreases n,
{
    if n <= 0 {
        0
    } else {
        total_room(blocks, m, n - 1) + insts_room(blocks[n - 1].phis@, m, blocks[n - 1].phis@.len() as int)
            + insts_room(blocks[n - 1].insts@, m, blocks[n - 1].insts@.len() as int)
    }
}

proof fn insts_room_shrinks(insts: Seq<Inst>, m: Map<u32, Repr>, m2: Map<u32, Repr>, n: int)
    requires
        map_below(m, m2),
        n <= insts.len(),
    ensures
        0 <= insts_room(insts, m2, n) <= insts_room(insts, m, n),
    decreases n,
{
    if n > 0 {
        insts_room_shrinks(insts, m, m2, n - 1);
        if let Some(d) = insts[n - 1].spec_dst() {
            assert(below(at(m, d), at(m2, d)));
        }
    }
}

proof fn insts_room_shrinks_at(insts: Seq<Inst>, m: Map<u32, Repr>, m2: Map<u32, Repr>, n: int, i: int, d: VarId)
    requires
        map_below(m, m2),
        0 <= i < n <= insts.len(),
        insts[i].spec_dst() == Some(d),
        at(m, d) != at(m2, d),
    ensures
        insts_room(insts, m2, n) < insts_room(insts, m, n),
    decreases n,
{
    assert(below(at(m, d), at(m2, d)));
    if i == n - 1 {
        insts_room_shrinks(insts, m, m2, n - 1);
    } else {
        insts_room_shrinks_at(insts, m, m2, n - 1, i, d);
        if let Some(e) = insts[n - 1].spec_dst() {
            assert(below(at(m, e), at(m2, e)));
        }
    }
}

proof fn total_room_shrinks(blocks: Seq<Block>, m: Map<u32, Repr>, m2: Map<u32, Repr>, n: int)
    requires
        map_below(m, m2),
        n <= blocks.len(),
    ensures
        0 <= total_room(blocks, m2, n) <= total_room(blocks, m, n),
    decreases n,
{
    if n > 0 {
        total_room_shrinks(blocks, m, m2, n - 1);
        insts_room_shrinks(blocks[n - 1].phis@, m, m2, blocks[n - 1].phis@.len() as int);
        insts_room_shrinks(blocks[n - 1].insts@, m, m2, blocks[n - 1].insts@.len() as int);
    }
}

/// `d` is defined in `b`.
spec fn defined_in(b: Block, d: VarId) -> bool {
    ||| exists|i: int| 0 <= i < b.phis@.len() && (#[trigger] b.phis@[i]).spec_dst() == Some(d)
    ||| exists|i: int| 0 <= i < b.insts@.len() && (#[trigger] b.insts@[i]).spec_dst() == Some(d)
}

proof fn total_room_shrinks_at(blocks: Seq<Block>, m: Map<u32, Repr>, m2: Map<u32, Repr>, n: int, i: int, d: VarId)
    requires
        map_below(m, m2),
        0 <= i < n <= blocks.len(),
        defined_in(blocks[i], d),
        at(m, d) != at(m2, d),
    ensures
        total_room(blocks, m2, n) < total_room(blocks, m, n),
    decreases n,
{
    let phis = blocks[n - 1].phis@;
    let insts = blocks[n - 1].insts@;
    insts_room_shrinks(phis, m, m2, phis.len() as int);
    insts_room_shrinks(insts, m, m2, insts.len() as int);
    if i == n - 1 {
        total_room_shrinks(blocks, m, m2, n - 1);
        if exists|k: int| 0 <= k < phis.len() && (#[trigger] phis[k]).spec_dst() == Some(d) {
            let k = choose|k: int| 0 <= k < phis.len() && (#[trigger] phis[k]).spec_dst() == Some(d);
            insts_room_shrinks_at(phis, m, m2, phis.len() as int, k, d);
        } else {
            let k = choose|k: int| 0 <= k < insts.len() && (#[trigger] insts[k]).spec_dst() == Some(d);
            insts_room_shrinks_at(insts, m, m2, insts.len() as int, k, d);
        }
    } else {
        total_room_shrinks_at(blocks, m, m2, n - 1, i, d);
    }
}

/// What every step of the search keeps: above the seeds, below every solution.
spec fn on_the_way(func: IrFunction, specs: Seq<Repr>, m: Map<u32, Repr>) -> bool {
    &&& map_below(seeds(func, specs), m)
    &&& forall|n: Map<u32, Repr>| #[trigger] is_solution(func, specs, n) ==> map_below(m, n)
}

/// `m` with `new` joined into what it says of `d`.
spec fn raised(m: Map<u32, Repr>, d: VarId, new: Option<Repr>) -> Map<u32, Repr> {
    match join(at(m, d), new) {
        Some(r) => m.insert(d.0, r),
        None => m,
    }
}

proof fn raised_facts(m: Map<u32, Repr>, d: VarId, new: Option<Repr>)
    ensures
        map_below(m, raised(m, d, new)),
        at(raised(m, d, new), d) == join(at(m, d), new),
        join(at(m, d), new) == at(m, d) ==> raised(m, d, new) == m && below(new, at(m, d)),
        forall|v: VarId| v != d ==> #[trigger] at(raised(m, d, new), v) == at(m, v),
{
    let r = raised(m, d, new);
    if join(at(m, d), new) == at(m, d) {
        assert(r =~= m);
    }
    assert forall|v: VarId| v != d implies #[trigger] at(r, v) == at(m, v) by {
        assert(v.0 != d.0);
    }
    assert forall|v: VarId| below(#[trigger] at(m, v), at(r, v)) by {
        if v == d {
        }
    }
}

proof fn raised_on_the_way(func: IrFunction, specs: Seq<Repr>, m: Map<u32, Repr>, d: VarId, new: Option<Repr>)
    requires
        on_the_way(func, specs, m),
        forall|n: Map<u32, Repr>| #[trigger] is_solution(func, specs, n) ==> below(new, at(n, d)),
    ensures
        on_the_way(func, specs, raised(m, d, new)),
{
    let r = raised(m, d, new);
    raised_facts(m, d, new);
    map_below_transitive(seeds(func, specs), m, r);
    assert forall|n: Map<u32, Repr>| #[trigger] is_solution(func, specs, n) implies map_below(r, n) by {
        assert(map_below(m, n));
        assert forall|v: VarId| below(#[trigger] at(r, v), at(n, v)) by {
            assert(below(at(m, v), at(n, v)));
            if v == d {
                assert(below(new, at(n, d)));
            }
        }
    }
}

/// The keys of `m` are among `keys`.
spec fn covers(keys: Seq<u32>, m: Map<u32, Repr>) -> bool {
    forall|v: u32| m.dom().contains(v) ==> #[trigger] keys.contains(v)
}

fn look(lat: &HashMap<u32, Repr>, v: VarId) -> (r: Option<Repr>)
    ensures
        r == at(lat@, v),
{
    match lat.get(&v.0) {
        Some(r) => Some(*r),
        None => None,
    }
}

/// Joins `new` into what is known of `dst`; tells whether that changed anything.
fn raise(lat: &mut HashMap<u32, Repr>, keys: &mut Vec<u32>, dst: VarId, new: Option<Repr>) -> (changed: bool)
    requires
        covers(old(keys)@, old(lat)@),
    ensures
        final(lat)@ == raised(old(lat)@, dst, new),
        covers(final(keys)@, final(lat)@),
        changed <==> join(at(old(lat)@, dst), new) != at(old(lat)@, dst),
{
    let known = look(lat, dst);
    let merged = meet(known, new);
    proof {
        raised_facts(lat@, dst, new);
    }
    if merged != known {
        match merged {
            Some(r) => {
                let ghost before = keys@;
                lat.insert(dst.0, r);
                keys.push(dst.0);
                assert forall|v: u32| lat@.dom().contains(v) implies #[trigger] keys@.contains(v) by {
                    if v == dst.0 {
                        assert(keys@[before.len() as int] == v);
                    } else {
                        assert(old(lat)@.dom().contains(v));
                        assert(before.contains(v));
                        let k = choose|k: int| 0 <= k < before.len() && before[k] == v;
                        assert(keys@[k] == v);
                    }
                }
            },
            None => {},
        }
        true
    } else {
        false
    }
}

fn known_call(kf: KnownFn, a: Option<Repr>, b: Option<Repr>) -> (r: Option<Repr>)
    ensures
        r == known_result(kf, a, b),
{
    match kf {
        KnownFn::Add | KnownFn::Sub | KnownFn::Mul => arith_result(a, b),
        KnownFn::Div => only_on_result(Repr::Double, Repr::Double, a, b),
        KnownFn::Lt | KnownFn::Gt | KnownFn::Lte | KnownFn::Gte => cmp_result(a, b),
        KnownFn::Eq => only_on_result(Repr::Long, Repr::Bool, a, b),
        _ => Some(Repr::Boxed),
    }
}

fn transfer(inst: &Inst, lat: &HashMap<u32, Repr>) -> (r: Option<Repr>)
    ensures
        r == inst_result(*inst, lat@),
{
    match inst {
        Inst::Const(_, c) => match c {
            Const::Long(_) => Some(Repr::Long),
            Const::Double(_) => Some(Repr::Double),
            Const::Bool(_) => Some(Repr::Bool),
            _ => Some(Repr::Boxed),
        },
        Inst::Phi(_, entries) => {
            let mut m: Option<Repr> = None;
            let mut i: usize = 0;
            while i < entries.len()
                invariant
                    i <= entries@.len(),
                    m == phi_join(entries@, lat@, i as int),
                decreases entries@.len() - i,
            {
                m = meet(m, look(lat, entries[i].1));
                i += 1;
            }
            m
        },
        Inst::CallKnown(_, kf, args) => if args.len() == 2 {
            known_call(*kf, look(lat, args[0]), look(lat, args[1]))
        } else {
            Some(Repr::Boxed)
        },
        _ => Some(Repr::Boxed),
    }
}

/// One step of a pass: `before` was refined to `after`, by nothing that a solution could be
/// without, and only where there was room.
spec fn progress(func: IrFunction, specs: Seq<Repr>, before: Map<u32, Repr>, after: Map<u32, Repr>, changed: bool) -> bool {
    &&& on_the_way(func, specs, after)
    &&& map_below(before, after)
    &&& changed ==> total_room(func.blocks@, after, func.blocks@.len() as int) < total_room(
        func.blocks@,
        before,
        func.blocks@.len() as int,
    )
    &&& !changed ==> after == before
}

proof fn progress_chains(func: IrFunction, specs: Seq<Repr>, a: Map<u32, Repr>, b: Map<u32, Repr>, c: Map<u32, Repr>, ab: bool, bc: bool)
    requires
        progress(func, specs, a, b, ab),
        progress(func, specs, b, c, bc),
    ensures
        progress(func, specs, a, c, ab || bc),
{
    map_below_transitive(a, b, c);
    total_room_shrinks(func.blocks@, a, b, func.blocks@.len() as int);
    total_room_shrinks(func.blocks@, b, c, func.blocks@.len() as int);
}

/// Raising `d`, which block `bi` defines, to something that every solution is above.
proof fn raise_progresses(func: IrFunction, specs: Seq<Repr>, m: Map<u32, Repr>, bi: int, d: VarId, new: Option<Repr>)
    requires
        on_the_way(func, specs, m),
        0 <= bi < func.blocks@.len(),
        defined_in(func.blocks@[bi], d),
        forall|n: Map<u32, Repr>| #[trigger] is_solution(func, specs, n) ==> below(new, at(n, d)),
    ensures
        progress(func, specs, m, raised(m, d, new), join(at(m, d), new) != at(m, d)),
        join(at(m, d), new) == at(m, d) ==> below(new, at(m, d)),
{
    raised_facts(m, d, new);
    raised_on_the_way(func, specs, m, d, new);
    if join(at(m, d), new) != at(m, d) {
        total_room_shrinks_at(func.blocks@, m, raised(m, d, new), func.blocks@.len() as int, bi, d);
    }
}

spec fn all_respected(insts: Seq<Inst>, m: Map<u32, Repr>) -> bool {
    forall|i: int| 0 <= i < insts.len() ==> respects_inst(#[trigger] insts[i], m)
}

/// Lets the instructions of block `bi` (its phis or its body) refine what is known.
fn visit_insts(func: &IrFunction, specs: &[Repr], bi: usize, of_phis: bool, lat: &mut HashMap<u32, Repr>, keys: &mut Vec<u32>) -> (changed: bool)
    requires
        bi < func.blocks@.len(),
        covers(old(keys)@, old(lat)@),
        on_the_way(*func, specs@, old(lat)@),
    ensures
        covers(final(keys)@, final(lat)@),
        progress(*func, specs@, old(lat)@, final(lat)@, changed),
        !changed && of_phis ==> all_respected(func.blocks@[bi as int].phis@, final(lat)@),
        !changed && !of_phis ==> all_respected(func.blocks@[bi as int].insts@, final(lat)@),
{
    let insts: &Vec<Inst> = if of_phis { &func.blocks[bi].phis } else { &func.blocks[bi].insts };
    let ghost start = lat@;
    let mut changed = false;
    let mut i: usize = 0;
    proof {
        assert(map_below(start, start));
    }
    while i < insts.len()
        invariant
            bi < func.blocks@.len(),
            of_phis ==> insts@ == func.blocks@[bi as int].phis@,
            !of_phis ==> insts@ == func.blocks@[bi as int].insts@,
            i <= insts@.len(),
            covers(keys@, lat@),
            progress(*func, specs@, start, lat@, changed),
            !changed ==> forall|k: int| 0 <= k < i ==> respects_inst(#[trigger] insts@[k], lat@),
        decreases insts@.len() - i,
    {
        let inst = &insts[i];
        if let Some(d) = inst.dst() {
            let new = transfer(inst, lat);
            let ghost before = lat@;
            proof {
                let b = func.blocks@[bi as int];
                assert forall|n: Map<u32, Repr>| #[trigger] is_solution(*func, specs@, n) implies below(new, at(n, d)) by {
                    assert(map_below(before, n));
                    inst_result_monotone(*inst, before, n);
                    assert(respects_block(func.blocks@, b, n));
                    assert(respects_inst(insts@[i as int], n));
                    below_transitive(new, inst_result(*inst, n), at(n, d));
                }
                assert(insts@[i as int].spec_dst() == Some(d));
                assert(defined_in(b, d));
                raise_progresses(*func, specs@, before, bi as int, d, new);
            }
            let c = raise(lat, keys, d, new);
            proof {
                progress_chains(*func, specs@, start, before, lat@, changed, c);
            }
            changed = changed || c;
        }
        i += 1;
    }
    changed
}

/// Lets the jump back at the end of block `bi`, if there is one, refine what is known.
fn visit_recur(func: &IrFunction, specs: &[Repr], bi: usize, lat: &mut HashMap<u32, Repr>, keys: &mut Vec<u32>) -> (changed: bool)
    requires
        bi < func.blocks@.len(),
        covers(old(keys)@, old(lat)@),
        on_the_way(*func, specs@, old(lat)@),
    ensures
        covers(final(keys)@, final(lat)@),
        progress(*func, specs@, old(lat)@, final(lat)@, changed),
        !changed ==> respects_recur(func.blocks@, func.blocks@[bi as int], final(lat)@),
{
    let ghost start = lat@;
    let mut changed = false;
    proof {
        assert(map_below(start, start));
    }
    match &func.blocks[bi].terminator {
        Terminator::RecurJump { target, args } => {
            match find_block(&func.blocks, *target) {
                Some(t) => {
                    let phis = &func.blocks[t].phis;
                    let mut k: usize = 0;
                    while k < phis.len() && k < args.len()
                        invariant
                            bi < func.blocks@.len(),
                            t < func.blocks@.len(),
                            func.blocks@[bi as int].terminator == (Terminator::RecurJump { target: *target, args: *args }),
                            t == ir::first_block(func.blocks@, *target, 0),
                            phis@ == func.blocks@[t as int].phis@,
                            k <= phis@.len(),
                            k <= args@.len(),
                            covers(keys@, lat@),
                            progress(*func, specs@, start, lat@, changed),
                            !changed ==> forall|j: int| 0 <= j < k ==> #[trigger] respects_arg(phis@, args@, j, lat@),
                        decreases phis@.len() - k,
                    {
                        if let Inst::Phi(dst, _) = &phis[k] {
                            let new = look(lat, args[k]);
                            let ghost before = lat@;
                            proof {
                                assert forall|n: Map<u32, Repr>| #[trigger] is_solution(*func, specs@, n) implies below(new, at(n, *dst)) by {
                                    assert(map_below(before, n));
                                    assert(respects_block(func.blocks@, func.blocks@[bi as int], n));
                                    assert(respects_recur(func.blocks@, func.blocks@[bi as int], n));
                                    assert(respects_args(phis@, args@, n));
                                    assert(respects_arg(phis@, args@, k as int, n));
                                    assert(below(at(before, args@[k as int]), at(n, args@[k as int])));
                                    below_transitive(new, at(n, args@[k as int]), at(n, *dst));
                                }
                                assert(phis@[k as int].spec_dst() == Some(*dst));
                                assert(defined_in(func.blocks@[t as int], *dst));
                                raise_progresses(*func, specs@, before, t as int, *dst, new);
                            }
                            let c = raise(lat, keys, *dst, new);
                            proof {
                                progress_chains(*func, specs@, start, before, lat@, changed, c);
                            }
                            changed = changed || c;
                        }
                        k += 1;
                    }
                },
                None => {},
            }
        },
        _ => {},
    }
    changed
}

/// One pass over all blocks.
fn visit_all(func: &IrFunction, specs: &[Repr], lat: &mut HashMap<u32, Repr>, keys: &mut Vec<u32>) -> (changed: bool)
    requires
        covers(old(keys)@, old(lat)@),
        on_the_way(*func, specs@, old(lat)@),
    ensures
        covers(final(keys)@, final(lat)@),
        progress(*func, specs@, old(lat)@, final(lat)@, changed),
        !changed ==> is_least_solution(*func, specs@, final(lat)@),
{
    let ghost start = lat@;
    let mut changed = false;
    let mut bi: usize = 0;
    proof {
        assert(map_below(start, start));
    }
    while bi < func.blocks.len()
        invariant
            bi <= func.blocks@.len(),
            covers(keys@, lat@),
            progress(*func, specs@, start, lat@, changed),
            !changed ==> forall|i: int|
                0 <= i < bi ==> respects_block(func.blocks@, #[trigger] func.blocks@[i], lat@),
        decreases func.blocks@.len() - bi,
    {
        let ghost m0 = lat@;
        let c1 = visit_insts(func, specs, bi, true, lat, keys);
        let ghost m1 = lat@;
        let c2 = visit_insts(func, specs, bi, false, lat, keys);
        let ghost m2 = lat@;
        let c3 = visit_recur(func, specs, bi, lat, keys);
        proof {
            progress_chains(*func, specs@, start, m0, m1, changed, c1);
            progress_chains(*func, specs@, start, m1, m2, changed || c1, c2);
            progress_chains(*func, specs@, start, m2, lat@, changed || c1 || c2, c3);
        }
        changed = changed || c1 || c2 || c3;
        bi += 1;
    }
    changed
}

proof fn least_solution_is_unique(func: IrFunction, specs: Seq<Repr>, m: Map<u32, Repr>, n: Map<u32, Repr>)
    requires
        is_least_solution(func, specs, m),
        is_least_solution(func, specs, n),
    ensures
        m == n,
{
    assert(map_below(m, n));
    assert(map_below(n, m));
    assert forall|v: u32| #[trigger] m.dom().contains(v) == n.dom().contains(v) && (m.dom().contains(v) ==> m[v] == n[v]) by {
        assert(below(at(m, VarId(v)), at(n, VarId(v))));
        assert(below(at(n, VarId(v)), at(m, VarId(v))));
    }
    assert(m.dom() =~= n.dom());
    assert(m =~= n);
}

/// The seeds, as a table, with its keys.
fn seed_table(func: &IrFunction, specs: &[Repr]) -> (r: (HashMap<u32, Repr>, Vec<u32>))
    ensures
        r.0@ == seeds(*func, specs@),
        covers(r.1@, r.0@),
{
    let mut lat: HashMap<u32, Repr> = HashMap::new();
    let mut keys: Vec<u32> = Vec::new();
    let mut i: usize = 0;
    while i < func.params.len()
        invariant
            i <= func.params@.len(),
            lat@ == param_seeds(func.params@, specs@, i as int),
            covers(keys@, lat@),
        decreases func.params@.len() - i,
    {
        let var = func.params[i].1;
        let r = if i < specs.len() { specs[i] } else { Repr::Boxed };
        let ghost before = keys@;
        let ghost m0 = lat@;
        lat.insert(var.0, r);
        keys.push(var.0);
        proof {
            covers_push(before, m0, var.0, r);
        }
        i += 1;
    }
    let ghost base = lat@;
    let mut j: usize = 0;
    while j < func.local_seed_reprs.len()
        invariant
            j <= func.local_seed_reprs@.len(),
            lat@ == with_hints(base, func.local_seed_reprs@, j as int),
            covers(keys@, lat@),
        decreases func.local_seed_reprs@.len() - j,
    {
        let (v, r) = func.local_seed_reprs[j];
        let merged = meet(look(&lat, v), Some(r));
        match merged {
            Some(x) => {
                let ghost before = keys@;
                let ghost m0 = lat@;
                lat.insert(v.0, x);
                keys.push(v.0);
                proof {
                    covers_push(before, m0, v.0, x);
                }
            },
            None => {},
        }
        j += 1;
    }
    (lat, keys)
}

proof fn covers_push(keys: Seq<u32>, m: Map<u32, Repr>, v: u32, r: Repr)
    requires
        covers(keys, m),
    ensures
        covers(keys.push(v), m.insert(v, r)),
{
    let keys2 = keys.push(v);
    assert forall|w: u32| m.insert(v, r).dom().contains(w) implies #[trigger] keys2.contains(w) by {
        if w == v {
            assert(keys2[keys.len() as int] == w);
        } else {
            assert(m.dom().contains(w));
            assert(keys.contains(w));
            let k = choose|k: int| 0 <= k < keys.len() && keys[k] == w;
            assert(keys2[k] == w);
        }
    }
}

/// Infers a representation for every value of `func`.
///
/// `specs` seeds the parameters by position; missing entries are boxed.  The result is the least
/// solution, with the boxed entries left out.
pub fn infer(func: &IrFunction, specs: &[Repr]) -> (r: HashMap<u32, Repr>)
    ensures
        is_least_solution(*func, specs@, solution(*func, specs@)),
        r@ == unboxed(solution(*func, specs@)),
{
    let (mut lat, mut keys) = seed_table(func, specs);
    proof {
        assert(map_below(lat@, lat@));
    }
    let mut changed = true;
    while changed
        invariant
            covers(keys@, lat@),
            on_the_way(*func, specs@, lat@),
            !changed ==> is_least_solution(*func, specs@, lat@),
        decreases total_room(func.blocks@, lat@, func.blocks@.len() as int) + (if changed { 1int } else { 0int }),
    {
        proof {
            assert(map_below(lat@, lat@));
            total_room_shrinks(func.blocks@, lat@, lat@, func.blocks@.len() as int);
        }
        let ghost before = lat@;
        changed = visit_all(func, specs, &mut lat, &mut keys);
        proof {
            total_room_shrinks(func.blocks@, before, lat@, func.blocks@.len() as int);
        }
    }
    proof {
        least_solution_is_unique(*func, specs@, lat@, solution(*func, specs@));
    }
    let ghost m = lat@;
    let mut out: HashMap<u32, Repr> = HashMap::new();
    let mut i: usize = 0;
    while i < keys.len()
        invariant
            i <= keys@.len(),
            lat@ == m,
            forall|v: u32| #[trigger] out@.dom().contains(v) <==> (unboxed(m).dom().contains(v) && keys@.take(i as int).contains(v)),
            forall|v: u32| #[trigger] out@.dom().contains(v) ==> out@[v] == m[v],
        decreases keys@.len() - i,
    {
        let v = keys[i];
        proof {
            assert(keys@.take(i + 1) == keys@.take(i as int).push(keys@[i as int]));
            assert forall|w: u32| keys@.take(i + 1).contains(w) <==> (keys@.take(i as int).contains(w) || w == keys@[i as int]) by {
                let a = keys@.take(i as int);
                let b = keys@.take(i + 1);
                if a.contains(w) {
                    let k = choose|k: int| 0 <= k < a.len() && a[k] == w;
                    assert(b[k] == w);
                }
                if w == keys@[i as int] {
                    assert(b[i as int] == w);
                }
                if b.contains(w) {
                    let k = choose|k: int| 0 <= k < b.len() && b[k] == w;
                    if k < i {
                        assert(a[k] == w);
                    }
                }
            }
        }
        if let Some(r) = look(&lat, VarId(v)) {
            if r != Repr::Boxed {
                out.insert(v, r);
            }
        }
        i += 1;
    }
    proof {
        assert(keys@.take(keys@.len() as int) == keys@);
        assert(out@.dom() =~= unboxed(m).dom());
        assert(out@ =~= unboxed(m));
    }
    out
}

/// What `specs` says of the parameter at `i`.
pub open spec fn spec_of(specs: Seq<Repr>, i: int) -> Repr {
    if i < specs.len() { specs[i] } else { Repr::Boxed }
}

/// `less` is `more` with some entries boxed, or cut off at the end.
pub open spec fn specializes_less(less: Seq<Repr>, more: Seq<Repr>) -> bool {
    forall|i: int| 0 <= i ==> #[trigger] spec_of(less, i) == spec_of(more, i) || spec_of(less, i) == Repr::Boxed
}

proof fn param_seeds_monotone(params: Seq<(String, VarId)>, more: Seq<Repr>, less: Seq<Repr>, n: int)
    requires
        n <= params.len(),
        specializes_less(less, more),
    ensures
        map_below(param_seeds(params, more, n), param_seeds(params, less, n)),
        param_seeds(params, more, n).dom() == param_seeds(params, less, n).dom(),
    decreases n,
{
    if n > 0 {
        param_seeds_monotone(params, more, less, n - 1);
        assert(spec_of(less, n - 1) == spec_of(more, n - 1) || spec_of(less, n - 1) == Repr::Boxed);
        assert forall|v: VarId| below(#[trigger] at(param_seeds(params, more, n), v), at(param_seeds(params, less, n), v)) by {
            assert(below(at(param_seeds(params, more, n - 1), v), at(param_seeds(params, less, n - 1), v)));
        }
    }
    assert(param_seeds(params, more, n).dom() =~= param_seeds(params, less, n).dom());
}

proof fn with_hints_monotone(a: Map<u32, Repr>, b: Map<u32, Repr>, hints: Seq<(VarId, Repr)>, n: int)
    requires
        map_below(a, b),
        a.dom() == b.dom(),
        n <= hints.len(),
    ensures
        map_below(with_hints(a, hints, n), with_hints(b, hints, n)),
        with_hints(a, hints, n).dom() == with_hints(b, hints, n).dom(),
    decreases n,
{
    if n > 0 {
        with_hints_monotone(a, b, hints, n - 1);
        let x = with_hints(a, hints, n - 1);
        let y = with_hints(b, hints, n - 1);
        let (h, r) = hints[n - 1];
        assert(below(at(x, h), at(y, h)));
        assert forall|v: VarId| below(#[trigger] at(with_hints(a, hints, n), v), at(with_hints(b, hints, n), v)) by {
            assert(below(at(x, v), at(y, v)));
        }
    }
    assert(with_hints(a, hints, n).dom() =~= with_hints(b, hints, n).dom());
}

proof fn hints_only_raise(base: Map<u32, Repr>, hints: Seq<(VarId, Repr)>, n: int)
    requires
        n <= hints.len(),
    ensures
        map_below(base, with_hints(base, hints, n)),
    decreases n,
{
    if n > 0 {
        hints_only_raise(base, hints, n - 1);
        let m = with_hints(base, hints, n - 1);
        assert forall|v: VarId| below(#[trigger] at(base, v), at(with_hints(base, hints, n), v)) by {
            assert(below(at(base, v), at(m, v)));
        }
    }
}

/// What `m` says of the values that `n` says something of.
spec fn narrowed(m: Map<u32, Repr>, n: Map<u32, Repr>) -> Map<u32, Repr> {
    Map::new(|v: u32| m.dom().contains(v) && n.dom().contains(v), |v: u32| m[v])
}

proof fn phi_join_known(entries: Seq<(BlockId, VarId)>, a: Map<u32, Repr>, b: Map<u32, Repr>, k: int)
    requires
        a.dom().subset_of(b.dom()),
        k <= entries.len(),
    ensures
        phi_join(entries, a, k) is Some ==> phi_join(entries, b, k) is Some,
    decreases k,
{
    if k > 0 {
        phi_join_known(entries, a, b, k - 1);
    }
}

/// Whether an instruction says anything depends only on whether its operands are known.
proof fn result_known(inst: Inst, a: Map<u32, Repr>, b: Map<u32, Repr>)
    requires
        a.dom().subset_of(b.dom()),
    ensures
        inst_result(inst, a) is Some ==> inst_result(inst, b) is Some,
{
    match inst {
        Inst::Phi(_, entries) => phi_join_known(entries@, a, b, entries@.len() as int),
        _ => {},
    }
}

proof fn narrowed_respects(inst: Inst, m: Map<u32, Repr>, n: Map<u32, Repr>)
    requires
        respects_inst(inst, m),
        respects_inst(inst, n),
    ensures
        respects_inst(inst, narrowed(m, n)),
{
    let c = narrowed(m, n);
    if let Some(d) = inst.spec_dst() {
        assert(map_below(c, m));
        assert(c.dom().subset_of(n.dom()));
        inst_result_monotone(inst, c, m);
        result_known(inst, c, n);
        below_transitive(inst_result(inst, c), inst_result(inst, m), at(m, d));
    }
}

/// The values that `m` knows are known to `n` too, where both are least solutions from seeds of the
/// same values.
proof fn known_alike(func: IrFunction, a: Seq<Repr>, b: Seq<Repr>, m: Map<u32, Repr>, n: Map<u32, Repr>)
    requires
        is_least_solution(func, a, m),
        is_solution(func, b, n),
        seeds(func, a).dom() == seeds(func, b).dom(),
    ensures
        m.dom().subset_of(n.dom()),
{
    let c = narrowed(m, n);
    assert forall|v: VarId| below(#[trigger] at(seeds(func, a), v), at(c, v)) by {
        assert(below(at(seeds(func, a), v), at(m, v)));
        assert(below(at(seeds(func, b), v), at(n, v)));
    }
    let blocks = func.blocks@;
    assert forall|i: int| 0 <= i < blocks.len() implies respects_block(blocks, #[trigger] blocks[i], c) by {
        let bl = blocks[i];
        assert(respects_block(blocks, bl, m) && respects_block(blocks, bl, n));
        assert forall|k: int| 0 <= k < bl.phis@.len() implies respects_inst(#[trigger] bl.phis@[k], c) by {
            narrowed_respects(bl.phis@[k], m, n);
        }
        assert forall|k: int| 0 <= k < bl.insts@.len() implies respects_inst(#[trigger] bl.insts@[k], c) by {
            narrowed_respects(bl.insts@[k], m, n);
        }
        if let Terminator::RecurJump { target, args } = bl.terminator {
            let t = ir::first_block(blocks, target, 0);
            if t < blocks.len() {
                let phis = blocks[t].phis@;
                assert forall|k: int| 0 <= k < phis.len() && k < args@.len() implies #[trigger] respects_arg(phis, args@, k, c) by {
                    assert(respects_arg(phis, args@, k, m) && respects_arg(phis, args@, k, n));
                }
            }
        }
    }
    assert(is_solution(func, a, c));
    assert forall|v: u32| m.dom().contains(v) implies n.dom().contains(v) by {
        assert(below(at(m, VarId(v)), at(c, VarId(v))));
    }
}

/// Specializing more parameters never loses or changes an unboxed representation: what is unboxed
/// under `less` is unboxed in the same way under `more`.
pub proof fn more_specialization_keeps_what_is_unboxed(func: IrFunction, more: Seq<Repr>, less: Seq<Repr>, m: Map<u32, Repr>, n: Map<u32, Repr>, v: u32)
    requires
        specializes_less(less, more),
        is_least_solution(func, more, m),
        is_least_solution(func, less, n),
    ensures
        unboxed(n).dom().contains(v) ==> unboxed(m).dom().contains(v) && unboxed(m)[v] == unboxed(n)[v],
{
    let k = func.params@.len() as int;
    let a = param_seeds(func.params@, more, k);
    let b = param_seeds(func.params@, less, k);
    param_seeds_monotone(func.params@, more, less, k);
    with_hints_monotone(a, b, func.local_seed_reprs@, func.local_seed_reprs@.len() as int);
    map_below_transitive(seeds(func, more), seeds(func, less), n);
    assert(is_solution(func, more, n));
    known_alike(func, less, more, n, m);
    assert(below(at(m, VarId(v)), at(n, VarId(v))));
}

/// An instruction says something of its value as soon as the values below `rank` are known.
pub open spec fn is_computed_by(inst: Inst, rank: Map<u32, nat>, below_rank: nat) -> bool {
    match inst {
        Inst::CallKnown(_, _, args) => forall|k: int| 0 <= k < args@.len() ==> rank.dom().contains((#[trigger] args@[k]).0) && rank[args@[k].0] < below_rank,
        Inst::Phi(_, entries) => exists|k: int| 0 <= k < entries@.len() && rank.dom().contains((#[trigger] entries@[k]).1.0) && rank[entries@[k].1.0] < below_rank,
        _ => true,
    }
}

/// The value is a parameter, or computed by an instruction from values of a lower rank.
pub open spec fn is_grounded(func: IrFunction, rank: Map<u32, nat>, v: u32) -> bool {
    ||| exists|i: int| 0 <= i < func.params@.len() && (#[trigger] func.params@[i]).1.0 == v
    ||| exists|b: int, i: int| 0 <= b < func.blocks@.len() && 0 <= i < func.blocks@[b].phis@.len() && (#[trigger] func.blocks@[b].phis@[i]).spec_dst() == Some(VarId(v))
        && is_computed_by(func.blocks@[b].phis@[i], rank, rank[v])
    ||| exists|b: int, i: int| 0 <= b < func.blocks@.len() && 0 <= i < func.blocks@[b].insts@.len() && (#[trigger] func.blocks@[b].insts@[i]).spec_dst() == Some(VarId(v))
        && is_computed_by(func.blocks@[b].insts@[i], rank, rank[v])
}

/// Every value with a rank is a parameter, or computed from constants, parameters and calls.
pub open spec fn all_grounded(func: IrFunction, rank: Map<u32, nat>) -> bool {
    forall|v: u32| #[trigger] rank.dom().contains(v) ==> is_grounded(func, rank, v)
}

proof fn seeded_params(params: Seq<(String, VarId)>, specs: Seq<Repr>, n: int, i: int)
    requires
        0 <= i < n <= params.len(),
    ensures
        param_seeds(params, specs, n).dom().contains(params[i].1.0),
    decreases n,
{
    if i < n - 1 {
        seeded_params(params, specs, n - 1, i);
    }
}

proof fn phi_join_of_known(entries: Seq<(BlockId, VarId)>, m: Map<u32, Repr>, n: int, k: int)
    requires
        0 <= k < n <= entries.len(),
        at(m, entries[k].1) is Some,
    ensures
        phi_join(entries, m, n) is Some,
    decreases n,
{
    if k < n - 1 {
        phi_join_of_known(entries, m, n - 1, k);
    }
}

proof fn inst_is_known(func: IrFunction, specs: Seq<Repr>, m: Map<u32, Repr>, rank: Map<u32, nat>, v: u32, inst: Inst)
    requires
        is_solution(func, specs, m),
        all_grounded(func, rank),
        rank.dom().contains(v),
        inst.spec_dst() == Some(VarId(v)),
        is_computed_by(inst, rank, rank[v]),
        respects_inst(inst, m),
    ensures
        m.dom().contains(v),
    decreases rank[v], 0nat,
{
    match inst {
        Inst::CallKnown(_, kf, args) => {
            if args@.len() == 2 {
                assert(rank.dom().contains(args@[0].0) && rank.dom().contains(args@[1].0));
                grounded_is_known(func, specs, m, rank, args@[0].0);
                grounded_is_known(func, specs, m, rank, args@[1].0);
            }
        },
        Inst::Phi(_, entries) => {
            let k = choose|k: int| 0 <= k < entries@.len() && rank.dom().contains((#[trigger] entries@[k]).1.0) && rank[entries@[k].1.0] < rank[v];
            grounded_is_known(func, specs, m, rank, entries@[k].1.0);
            phi_join_of_known(entries@, m, entries@.len() as int, k);
        },
        _ => {},
    }
    assert(inst_result(inst, m) is Some);
}

proof fn grounded_is_known(func: IrFunction, specs: Seq<Repr>, m: Map<u32, Repr>, rank: Map<u32, nat>, v: u32)
    requires
        is_solution(func, specs, m),
        all_grounded(func, rank),
        rank.dom().contains(v),
    ensures
        m.dom().contains(v),
    decreases rank[v], 1nat,
{
    assert(is_grounded(func, rank, v));
    let blocks = func.blocks@;
    if exists|i: int| 0 <= i < func.params@.len() && (#[trigger] func.params@[i]).1.0 == v {
        let i = choose|i: int| 0 <= i < func.params@.len() && (#[trigger] func.params@[i]).1.0 == v;
        let k = func.params@.len() as int;
        seeded_params(func.params@, specs, k, i);
        hints_only_raise(param_seeds(func.params@, specs, k), func.local_seed_reprs@, func.local_seed_reprs@.len() as int);
        assert(below(at(param_seeds(func.params@, specs, k), VarId(v)), at(seeds(func, specs), VarId(v))));
        assert(below(at(seeds(func, specs), VarId(v)), at(m, VarId(v))));
    } else if exists|b: int, i: int| 0 <= b < blocks.len() && 0 <= i < blocks[b].phis@.len() && (#[trigger] blocks[b].phis@[i]).spec_dst() == Some(VarId(v))
        && is_computed_by(blocks[b].phis@[i], rank, rank[v]) {
        let (b, i) = choose|b: int, i: int| 0 <= b < blocks.len() && 0 <= i < blocks[b].phis@.len() && (#[trigger] blocks[b].phis@[i]).spec_dst() == Some(VarId(v))
            && is_computed_by(blocks[b].phis@[i], rank, rank[v]);
        assert(respects_block(blocks, blocks[b], m));
        inst_is_known(func, specs, m, rank, v, blocks[b].phis@[i]);
    } else {
        let (b, i) = choose|b: int, i: int| 0 <= b < blocks.len() && 0 <= i < blocks[b].insts@.len() && (#[trigger] blocks[b].insts@[i]).spec_dst() == Some(VarId(v))
            && is_computed_by(blocks[b].insts@[i], rank, rank[v]);
        assert(respects_block(blocks, blocks[b], m));
        inst_is_known(func, specs, m, rank, v, blocks[b].insts@[i]);
    }
}

/// A type hint can confirm an unboxed representation, and never forces one: what is unboxed with the
/// hints is unboxed in the same way without them.  The value is one that is computed: a parameter, or
/// the result of an instruction on constants, parameters and calls.
pub proof fn hints_never_force(func: IrFunction, bare: IrFunction, specs: Seq<Repr>, m: Map<u32, Repr>, n: Map<u32, Repr>, rank: Map<u32, nat>, v: u32)
    requires
        bare.params == func.params,
        bare.blocks == func.blocks,
        bare.local_seed_reprs@.len() == 0,
        all_grounded(func, rank),
        rank.dom().contains(v),
        is_least_solution(func, specs, m),
        is_least_solution(bare, specs, n),
    ensures
        unboxed(m).dom().contains(v) ==> unboxed(n).dom().contains(v) && unboxed(n)[v] == unboxed(m)[v],
{
    let base = param_seeds(func.params@, specs, func.params@.len() as int);
    hints_only_raise(base, func.local_seed_reprs@, func.local_seed_reprs@.len() as int);
    assert(seeds(bare, specs) == base);
    map_below_transitive(base, seeds(func, specs), m);
    assert(is_solution(bare, specs, m));
    assert(all_grounded(bare, rank)) by {
        assert forall|w: u32| #[trigger] rank.dom().contains(w) implies is_grounded(bare, rank, w) by {
            assert(is_grounded(func, rank, w));
        }
    }
    grounded_is_known(bare, specs, n, rank, v);
    assert(below(at(n, VarId(v)), at(m, VarId(v))));
}

} // verus!
