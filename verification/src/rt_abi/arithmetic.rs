//! What arithmetic and comparisons of values keep to.
use crate::rt_abi::numbers;
use crate::rt_abi::numbers::{ArithView, FloatOp};
use crate::double;
use crate::value::ValueView;
use vstd::prelude::*;

verus! {

/// An integer that a value can hold.
pub open spec fn fits(n: int) -> bool {
    i64::MIN <= n <= i64::MAX
}

/// Integers are added up, taken away and multiplied where the result fits, and overflow otherwise; what
/// was added can be taken away again.
pub proof fn integers_add_up(x: i64, y: i64)
    ensures
        ({
            let a = ValueView::Long(x);
            let b = ValueView::Long(y);
            let sum = numbers::arith(FloatOp::Add, a, b);
            let difference = numbers::arith(FloatOp::Sub, a, b);
            let product = numbers::arith(FloatOp::Mul, a, b);
            &&& sum is Overflow <==> !fits(x + y)
            &&& fits(x + y) ==> sum == ArithView::Value(ValueView::Long((x + y) as i64))
            &&& difference is Overflow <==> !fits(x - y)
            &&& fits(x - y) ==> difference == ArithView::Value(ValueView::Long((x - y) as i64))
            &&& product is Overflow <==> !fits(x * y)
            &&& fits(x * y) ==> product == ArithView::Value(ValueView::Long((x * y) as i64))
            &&& sum == numbers::arith(FloatOp::Add, b, a)
            &&& product == numbers::arith(FloatOp::Mul, b, a)
            &&& sum matches ArithView::Value(z) ==> numbers::arith(FloatOp::Sub, z, b) == ArithView::Value(a)
            &&& difference matches ArithView::Value(z) ==> numbers::arith(FloatOp::Add, z, b) == ArithView::Value(a)
        }),
{
    assert(x * y == y * x) by (nonlinear_arith);
}

/// Without a check, integers are added up, taken away and multiplied up to a multiple of what a word
/// counts to.
pub proof fn integers_wrap(x: i64, y: i64)
    ensures
        ({
            let a = ValueView::Long(x);
            let b = ValueView::Long(y);
            let word = 0x1_0000_0000_0000_0000int;
            &&& numbers::unchecked_arith(FloatOp::Add, a, b) matches ArithView::Value(ValueView::Long(z)) && (z - (x + y)) % word == 0
            &&& numbers::unchecked_arith(FloatOp::Sub, a, b) matches ArithView::Value(ValueView::Long(z)) && (z - (x - y)) % word == 0
            &&& numbers::unchecked_arith(FloatOp::Mul, a, b) matches ArithView::Value(ValueView::Long(z)) && (z - (x * y)) % word == 0
            &&& fits(x + y) ==> numbers::unchecked_arith(FloatOp::Add, a, b) == numbers::arith(FloatOp::Add, a, b)
            &&& fits(x - y) ==> numbers::unchecked_arith(FloatOp::Sub, a, b) == numbers::arith(FloatOp::Sub, a, b)
            &&& fits(x * y) ==> numbers::unchecked_arith(FloatOp::Mul, a, b) == numbers::arith(FloatOp::Mul, a, b)
        }),
{
    wraps(x + y);
    wraps(x - y);
    wraps(x * y);
}

proof fn wraps(n: int)
    ensures
        numbers::wrapped(n) matches ArithView::Value(ValueView::Long(z)) && (z - n) % 0x1_0000_0000_0000_0000int == 0,
        fits(n) ==> numbers::wrapped(n) == numbers::checked(n),
{
    let m = n + 0x8000_0000_0000_0000int;
    let k = m % 0x1_0000_0000_0000_0000int;
    let q = m / 0x1_0000_0000_0000_0000int;
    assert(m == q * 0x1_0000_0000_0000_0000int + k && 0 <= k < 0x1_0000_0000_0000_0000int);
    let z = (k - 0x8000_0000_0000_0000int) as i64;
    assert(z == k - 0x8000_0000_0000_0000int);
    assert(z - n == -q * 0x1_0000_0000_0000_0000int);
}

/// The quotient and the remainder of integers make up the dividend; the remainder is less than the
/// divisor and has the sign of the dividend.  There is none by zero.
pub proof fn integers_divide(x: i64, y: i64)
    ensures
        ({
            let a = ValueView::Long(x);
            let b = ValueView::Long(y);
            let q = numbers::division(a, b);
            let r = numbers::rest_of_division(a, b);
            &&& y == 0 ==> q == ArithView::Value(ValueView::Nil) && r == ArithView::Value(ValueView::Nil)
            &&& y != 0 && !numbers::is_too_large(a, b) ==> {
                &&& q matches ArithView::Value(ValueView::Long(s))
                &&& r matches ArithView::Value(ValueView::Long(t))
                &&& x == s * y + t
                &&& -numbers::magnitude(y as int) < t < numbers::magnitude(y as int)
                &&& t != 0 ==> (t < 0 <==> x < 0)
            }
        }),
{
    if y != 0 {
        numbers::division_adds_up(x as int, y as int);
        let d = numbers::magnitude(y as int);
        let m = numbers::magnitude(x as int);
        assert(0 <= m / d <= m) by (nonlinear_arith)
            requires
                m >= 0,
                d > 0,
        ;
        assert(0 <= m % d < d) by (nonlinear_arith)
            requires
                d > 0,
        ;
        if !numbers::is_too_large(ValueView::Long(x), ValueView::Long(y)) {
            assert(d == 1 || m / d < m || m == 0) by (nonlinear_arith)
                requires
                    m >= 0,
                    d > 0,
            ;
            if d == 1 {
                assert(m / d == m) by (nonlinear_arith)
                    requires
                        d == 1,
                ;
            }
            assert(fits(numbers::quotient(x as int, y as int)));
        }
    }
}

/// The float of a number.
pub open spec fn as_float(v: ValueView) -> u64 {
    match v {
        ValueView::Long(n) => double::double_bits(n as int) as u64,
        ValueView::Double(d) => d,
        _ => 0,
    }
}

pub open spec fn is_machine_number(v: ValueView) -> bool {
    v is Long || v is Double
}

/// Where one of two numbers is a float, both are taken as floats, in their order; what is no number
/// has no sum.
pub proof fn floats_are_left_to_the_machine(op: FloatOp, a: ValueView, b: ValueView)
    requires
        op is Add || op is Sub || op is Mul,
    ensures
        is_machine_number(a) && is_machine_number(b) && (a is Double || b is Double) ==> numbers::arith(op, a, b) == ArithView::Float(op, as_float(a), as_float(b)) && numbers::division(a, b) == ArithView::Float(FloatOp::Div, as_float(a), as_float(b)),
        !is_machine_number(a) || !is_machine_number(b) ==> numbers::arith(op, a, b) == ArithView::Value(ValueView::Nil) && numbers::division(a, b) == ArithView::Value(ValueView::Nil),
        numbers::unchecked_arith(op, a, b) == numbers::arith(op, a, b) || a is Long && b is Long,
{
}

/// A comparison and the one that is turned around agree; of integers exactly one of less, equal and
/// greater holds; what is no number is neither less nor greater than anything, and not equal in order.
pub proof fn comparisons_agree(a: ValueView, b: ValueView)
    ensures
        numbers::lt(a, b) == numbers::gt(b, a),
        numbers::lte(a, b) == numbers::gte(b, a),
        numbers::lt(a, b) ==> numbers::lte(a, b) && !numbers::gt(a, b) && !numbers::gte(a, b),
        numbers::gt(a, b) ==> numbers::gte(a, b),
        numbers::lte(a, b) && numbers::gte(a, b) ==> !numbers::lt(a, b) && !numbers::gt(a, b),
        a is Long && b is Long ==> (numbers::lt(a, b) <==> a->Long_0 < b->Long_0) && (numbers::lte(a, b) <==> a->Long_0 <= b->Long_0),
        is_machine_number(a) && is_machine_number(b) && (a is Double || b is Double) ==> (numbers::lt(a, b) <==> numbers::double_less(as_float(a), as_float(b))),
        is_machine_number(a) && is_machine_number(b) && (a is Double || b is Double) ==> (numbers::lte(a, b) <==> numbers::double_less(as_float(a), as_float(b)) || numbers::double_equal(as_float(a), as_float(b))),
        !is_machine_number(a) || !is_machine_number(b) ==> !numbers::lt(a, b) && !numbers::lte(a, b),
{
}

/// A float is less than another exactly where it comes before it in the order of the reals: less
/// magnitude among the positive, more among the negative, and the negative before the positive.
pub proof fn floats_are_ordered(x: u64, y: u64)
    requires
        x < 0x7ff0_0000_0000_0001,
        y < 0x7ff0_0000_0000_0001,
    ensures
        numbers::double_less(x, y) <==> x < y,
        numbers::double_less((x + 0x8000_0000_0000_0000) as u64, (y + 0x8000_0000_0000_0000) as u64) <==> y < x,
        numbers::double_less((x + 0x8000_0000_0000_0000) as u64, y) <==> x != 0 || y != 0,
        !numbers::double_less(x, (y + 0x8000_0000_0000_0000) as u64),
        numbers::double_equal(0, 0x8000_0000_0000_0000),
{
}

/// All values but nil and false are true, and the tags tell the kinds of values apart.
pub proof fn truth_and_kinds(v: ValueView, w: ValueView)
    ensures
        !numbers::truthy(v) <==> v is Nil || v == ValueView::Bool(false),
        numbers::tag(v) == numbers::tag(w) && (v is Long || v is Double || v is Bool || v is Nil) ==> (v is Long <==> w is Long) && (v is Double <==> w is Double) && (v is Bool <==> w is Bool) && (v is Nil <==> w is Nil),
        v is Long ==> numbers::tag(v) == 1,
        v is Double ==> numbers::tag(v) == 2,
{
}

} // verus!
