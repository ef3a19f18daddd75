//! Why an operation on raw values may stand for a call of the bridge.
//!
//! Where inference finds raw operands, a known function becomes machine instructions.  What they
//! yield is, boxed, what the bridge function yields on the boxed operands; where that overflows, they
//! throw the overflow.
use crate::bridge::RtFn;
use crate::clif::{Arith, FloatCond, IntCond, OpView, PlanView};
use crate::double;
use crate::emission;
use crate::emission::EnvView;
use crate::ir::{KnownFn, Repr, VarId};
use crate::rt_abi::numbers;
use crate::rt_abi::numbers::{ArithView, FloatOp};
use crate::typeinfer;
use crate::value::ValueView;
use vstd::prelude::*;

verus! {

/// A raw value.
pub enum RawView {
    Long(i64),
    Double(u64),
    Bool(bool),
}

/// The representation that a raw value has.
pub open spec fn repr(x: RawView) -> Repr {
    match x {
        RawView::Long(_) => Repr::Long,
        RawView::Double(_) => Repr::Double,
        RawView::Bool(_) => Repr::Bool,
    }
}

/// A raw value, boxed.
pub open spec fn boxed(x: RawView) -> ValueView {
    match x {
        RawView::Long(n) => ValueView::Long(n),
        RawView::Double(d) => ValueView::Double(d),
        RawView::Bool(b) => ValueView::Bool(b),
    }
}

/// A raw number as a float: an integer is converted.
pub open spec fn widened(x: RawView) -> u64 {
    match x {
        RawView::Long(n) => double::double_bits(n as int) as u64,
        RawView::Double(d) => d,
        RawView::Bool(_) => 0,
    }
}

/// What is left of a number in a word.
pub open spec fn word(n: int) -> int {
    ((n + 0x8000_0000_0000_0000) % 0x1_0000_0000_0000_0000) - 0x8000_0000_0000_0000
}

/// What an instruction on two integers yields.
pub open spec fn machine_int(op: Arith, x: int, y: int) -> Option<int> {
    match op {
        Arith::Iadd => Some(word(x + y)),
        Arith::Isub => Some(word(x - y)),
        Arith::Imul => Some(word(x * y)),
        Arith::Smulhi => Some((x * y) / 0x1_0000_0000_0000_0000),
        _ => None,
    }
}

/// What an instruction on two floats yields.
pub open spec fn machine_float(op: Arith, x: u64, y: u64) -> ArithView {
    match op {
        Arith::Fadd => ArithView::Float(FloatOp::Add, x, y),
        Arith::Fsub => ArithView::Float(FloatOp::Sub, x, y),
        Arith::Fmul => ArithView::Float(FloatOp::Mul, x, y),
        _ => ArithView::Float(FloatOp::Div, x, y),
    }
}

pub open spec fn machine_int_test(cond: IntCond, x: int, y: int) -> bool {
    match cond {
        IntCond::Equal => x == y,
        IntCond::SignedLessThan => x < y,
        IntCond::SignedGreaterThan => x > y,
        IntCond::SignedLessThanOrEqual => x <= y,
        IntCond::SignedGreaterThanOrEqual => x >= y,
    }
}

/// An ordered condition: it fails where an operand is not a number.
pub open spec fn machine_float_test(cond: FloatCond, x: u64, y: u64) -> bool {
    match cond {
        FloatCond::LessThan => numbers::double_less(x, y),
        FloatCond::GreaterThan => numbers::double_less(y, x),
        FloatCond::LessThanOrEqual => numbers::double_less(x, y) || numbers::double_equal(x, y),
        FloatCond::GreaterThanOrEqual => numbers::double_less(y, x) || numbers::double_equal(x, y),
    }
}

/// What a request comes to that has been carried out: an integer, or a truth value as one or zero.
/// There is nothing for a request that does not compute on integers.
pub open spec fn step(op: OpView, a: Option<int>, b: Option<int>) -> Option<int> {
    match op {
        OpView::Iconst { value, .. } => Some(value as int),
        OpView::Binary { op, .. } => if a is Some && b is Some { machine_int(op, a->0, b->0) } else { None },
        OpView::IntTest { cond, .. } => if a is Some && b is Some { Some(if machine_int_test(cond, a->0, b->0) { 1 } else { 0 }) } else { None },
        OpView::IntTestImm { cond, imm, .. } => if a is Some { Some(if machine_int_test(cond, a->0, imm as int) { 1 } else { 0 }) } else { None },
        _ => None,
    }
}

/// The operands of a request on integers.
pub open spec fn operands(op: OpView) -> (usize, usize) {
    match op {
        OpView::Binary { a, b, .. } => (a, b),
        OpView::IntTest { a, b, .. } => (a, b),
        OpView::IntTestImm { a, .. } => (a, a),
        _ => (0, 0),
    }
}

/// What the request at `i` comes to, where those at `x` and `y` come to `a` and `b`.
pub open spec fn computed(ops: Seq<OpView>, x: usize, a: int, y: usize, b: int, i: usize) -> Option<int>
    decreases i,
{
    if i == x {
        Some(a)
    } else if i == y {
        Some(b)
    } else if i >= ops.len() {
        None
    } else {
        let (p, q) = operands(ops[i as int]);
        step(ops[i as int], if p < i { computed(ops, x, a, y, b, p) } else { None }, if q < i { computed(ops, x, a, y, b, q) } else { None })
    }
}

/// The requests from `j` on leave the function with a pending overflow where `fits` is zero, and go
/// on behind them otherwise.
pub open spec fn throws_unless(ops: Seq<OpView>, j: int, fits: usize) -> bool {
    &&& ops.len() == j + 8
    &&& ops[j] matches OpView::Brif { cond, then_block, then_args, else_block, else_args } && {
        &&& cond == fits
        &&& then_block != else_block
        &&& then_args.len() == 0
        &&& else_args.len() == 0
        &&& ops[j + 1] == OpView::SwitchTo(else_block)
        &&& ops[j + 7] == OpView::SwitchTo(then_block)
    }
    &&& ops[j + 2] == OpView::ImportRt(RtFn::OverflowError)
    &&& ops[j + 3] == (OpView::Call { func: (j + 2) as usize, args: Seq::empty() })
    &&& ops[j + 4] == OpView::ImportRt(RtFn::Throw)
    &&& ops[j + 5] == (OpView::Call { func: (j + 4) as usize, args: seq![(j + 3) as usize] })
    &&& ops[j + 6] == OpView::Return((j + 5) as usize)
}

/// What an instruction yields whose operands have been read from `a` and `b`, as floats where it
/// works on floats.  There is nothing for an instruction that does not fit its operands.
pub open spec fn machine(op: OpView, a: RawView, b: RawView) -> Option<ArithView> {
    match op {
        OpView::Binary { op, .. } => Some(machine_float(op, widened(a), widened(b))),
        OpView::IntTest { cond, .. } => match (a, b) {
            (RawView::Long(x), RawView::Long(y)) => Some(ArithView::Value(ValueView::Bool(machine_int_test(cond, x as int, y as int)))),
            _ => None,
        },
        OpView::FloatTest { cond, .. } => Some(ArithView::Value(ValueView::Bool(machine_float_test(cond, widened(a), widened(b))))),
        _ => None,
    }
}

/// What the bridge function of `kf` yields on two values; `same` tells whether they are equal.
pub open spec fn bridged(kf: KnownFn, a: ValueView, b: ValueView, same: bool) -> ArithView {
    match emission::fixed_bridge(kf) {
        Some(RtFn::Add) => numbers::arith(FloatOp::Add, a, b),
        Some(RtFn::Sub) => numbers::arith(FloatOp::Sub, a, b),
        Some(RtFn::Mul) => numbers::arith(FloatOp::Mul, a, b),
        Some(RtFn::Div) => numbers::division(a, b),
        Some(RtFn::Lt) => ArithView::Value(ValueView::Bool(numbers::lt(a, b))),
        Some(RtFn::Gt) => ArithView::Value(ValueView::Bool(numbers::gt(a, b))),
        Some(RtFn::Lte) => ArithView::Value(ValueView::Bool(numbers::lte(a, b))),
        Some(RtFn::Gte) => ArithView::Value(ValueView::Bool(numbers::gte(a, b))),
        _ => ArithView::Value(ValueView::Bool(same)),
    }
}

/// A known function whose result inference leaves unboxed becomes requests that yield what the bridge
/// yields, on all operands of the representations in question.  Two integers are taken to be equal
/// values where they are the same.
///
/// A sum, difference or product of integers is followed by a test.  Where the bridge yields a number,
/// the test comes to one and the request to that number.  Where the bridge overflows, the test comes
/// to zero, and then an overflow is pending and the function is left.  The plan is one whose requests
/// a machine can number.
pub proof fn raw_agrees_with_boxed(env: EnvView, s: PlanView, kf: KnownFn, va: VarId, vb: VarId, a: RawView, b: RawView, same: bool)
    requires
        emission::repr_of(env, va) == repr(a),
        emission::repr_of(env, vb) == repr(b),
        typeinfer::known_result(kf, Some(repr(a)), Some(repr(b))) != Some(Repr::Boxed),
        same == (a == b),
        emission::unboxed_known(env, s, typeinfer::known_result(kf, Some(repr(a)), Some(repr(b)))->0, kf, va, vb)->Ok_0.0.ops.len() <= usize::MAX,
    ensures
        ({
            let dst = typeinfer::known_result(kf, Some(repr(a)), Some(repr(b)))->0;
            let planned = emission::unboxed_known(env, s, dst, kf, va, vb);
            let (t, at) = planned->Ok_0;
            let (s1, x) = emission::use_var(env, s, va);
            let (s2, y) = emission::use_var(env, s1, vb);
            &&& planned is Ok
            &&& dst != Repr::Long ==> machine(t.ops.last(), a, b) == Some(bridged(kf, boxed(a), boxed(b), same))
            &&& dst == Repr::Long ==> exists|fits: usize| {
                &&& #[trigger] throws_unless(t.ops, t.ops.len() - 8, fits)
                &&& match bridged(kf, boxed(a), boxed(b), same) {
                    ArithView::Value(ValueView::Long(n)) => {
                        &&& computed(t.ops, x, a->Long_0 as int, y, b->Long_0 as int, fits) == Some(1int)
                        &&& computed(t.ops, x, a->Long_0 as int, y, b->Long_0 as int, at) == Some(n as int)
                    },
                    ArithView::Overflow => computed(t.ops, x, a->Long_0 as int, y, b->Long_0 as int, fits) == Some(0int),
                    _ => false,
                }
            }
        }),
{
    let dst = typeinfer::known_result(kf, Some(repr(a)), Some(repr(b)))->0;
    if dst == Repr::Long {
        let (s1, x) = emission::use_var(env, s, va);
        let (s2, y) = emission::use_var(env, s1, vb);
        checked_agrees(s2, kf, x, y, a->Long_0, b->Long_0);
    }
}

/// Where a number fits in a word, all of it is left there.
proof fn word_fits(n: int)
    ensures
        word(n) == n <==> i64::MIN <= n <= i64::MAX,
        i64::MIN <= word(n) <= i64::MAX,
        n < 0x8000_0000_0000_0000 && n >= -0x1_8000_0000_0000_0000 && n < i64::MIN ==> word(n) == n + 0x1_0000_0000_0000_0000,
        i64::MAX < n < 0x1_8000_0000_0000_0000 ==> word(n) == n - 0x1_0000_0000_0000_0000,
{
}

/// The upper half of a number repeats the sign of the lower one exactly where the number fits in a
/// word.
proof fn halves_agree(n: int)
    ensures
        n / 0x1_0000_0000_0000_0000 == word(n) / 0x1_0000_0000_0000_0000 <==> word(n) == n,
{
}

#[verifier::rlimit(50)]
proof fn checked_agrees(s: PlanView, kf: KnownFn, x: usize, y: usize, a: i64, b: i64)
    requires
        emission::is_arith(kf),
        x < s.ops.len(),
        y < s.ops.len(),
        x == y ==> a == b,
        emission::checked_arith(s, kf, x, y).0.ops.len() <= usize::MAX,
    ensures
        ({
            let (t, at) = emission::checked_arith(s, kf, x, y);
            let exact = if kf == KnownFn::Add { a + b } else if kf == KnownFn::Sub { a - b } else { a * b };
            exists|fits: usize| {
                &&& #[trigger] throws_unless(t.ops, t.ops.len() - 8, fits)
                &&& computed(t.ops, x, a as int, y, b as int, fits) == Some(if i64::MIN <= exact <= i64::MAX { 1int } else { 0 })
                &&& computed(t.ops, x, a as int, y, b as int, at) == Some(word(exact))
            }
        }),
{
    let exact = if kf == KnownFn::Add { a + b } else if kf == KnownFn::Sub { a - b } else { a * b };
    let (s1, at) = emission::req(s, OpView::Binary { op: emission::int_arith(kf), a: x, b: y });
    let (s2, fits) = emission::fit_test(s1, kf, x, y, at);
    let t = emission::overflow_branch(s2, fits);
    let n = s.ops.len() as int;
    let ops = t.ops;
    let (u, v) = (a as int, b as int);
    word_fits(exact);
    halves_agree(exact);
    assert(ops.len() == s2.ops.len() + 10);
    assert(forall|k: int| 0 <= k < s2.ops.len() ==> ops[k] == s2.ops[k]);
    assert(ops[n] == (OpView::Binary { op: emission::int_arith(kf), a: x, b: y }));
    assert(at == n);
    assert(computed(ops, x, u, y, v, x) == Some(u));
    assert(computed(ops, x, u, y, v, y) == Some(v));
    assert(computed(ops, x, u, y, v, at) == Some(word(exact)));
    if kf == KnownFn::Mul {
        assert(word(exact) * 1 == word(exact));
        assert(computed(ops, x, u, y, v, (n + 1) as usize) == Some(exact / 0x1_0000_0000_0000_0000));
        assert(computed(ops, x, u, y, v, (n + 2) as usize) == Some(1int));
        assert(computed(ops, x, u, y, v, (n + 3) as usize) == Some(word(exact) / 0x1_0000_0000_0000_0000));
        assert(fits == n + 4);
    } else {
        assert(computed(ops, x, u, y, v, (n + 1) as usize) == Some(if word(exact) < u { 1int } else { 0 }));
        assert(computed(ops, x, u, y, v, (n + 2) as usize) == Some(if kf == KnownFn::Add && v < 0 || kf == KnownFn::Sub && v > 0 { 1int } else { 0 }));
        assert(fits == n + 3);
    }
    assert(computed(ops, x, u, y, v, fits) == Some(if i64::MIN <= exact <= i64::MAX { 1int } else { 0 }));
    assert(throws_unless(ops, ops.len() - 8, fits));
}

/// A raw value counts as true as its boxed form does: a number always, a truth value where it is
/// true.
pub proof fn raw_truth(x: RawView)
    ensures
        numbers::truthy(boxed(x)) == (match x {
            RawView::Bool(b) => b,
            _ => true,
        }),
{
}

/// The guard of a specialized parameter lets through exactly the values of its representation.
pub proof fn guards_tell_representations(r: Repr, v: ValueView)
    requires
        r == Repr::Long || r == Repr::Double,
    ensures
        numbers::tag(v) == emission::guard_tag(r) <==> (exists|x: RawView| repr(x) == r && #[trigger] boxed(x) == v),
{
    match v {
        ValueView::Long(n) => assert(boxed(RawView::Long(n)) == v),
        ValueView::Double(d) => assert(boxed(RawView::Double(d)) == v),
        _ => {},
    }
}

} // verus!
