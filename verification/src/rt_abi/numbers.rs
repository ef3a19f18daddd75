//! Arithmetic, comparison and the kinds of values.
use crate::double;
use crate::double::double_of_long;
use crate::rt_abi::equality;
use crate::rt_abi::equality::equal;
use crate::value;
use crate::value::{bare_value, Value, ValueView};
use vstd::prelude::*;
use vstd::string::*;

verus! {

/// An operation on floats.
#[derive(Clone, Copy, Debug, PartialEq, Eq, Structural)]
pub enum FloatOp {
    Add,
    Sub,
    Mul,
    Div,
    Rem,
}

/// What an arithmetic operation comes to.
#[derive(Debug)]
pub enum Arith {
    Value(Value),
    /// The result of an operation on two floats, which the machine computes.
    Float(FloatOp, u64, u64),
    /// An integer that does not fit.
    Overflow,
}

/// What an arithmetic operation comes to.
pub enum ArithView {
    Value(ValueView),
    Float(FloatOp, u64, u64),
    Overflow,
}

impl View for Arith {
    type V = ArithView;

    open spec fn view(&self) -> ArithView {
        match *self {
            Arith::Value(v) => ArithView::Value(v@),
            Arith::Float(op, x, y) => ArithView::Float(op, x, y),
            Arith::Overflow => ArithView::Overflow,
        }
    }
}

/// An integer, where it fits.
pub open spec fn checked(n: int) -> ArithView {
    if i64::MIN <= n <= i64::MAX { ArithView::Value(ValueView::Long(n as i64)) } else { ArithView::Overflow }
}

/// The integer that is left of `n` in a word.
pub open spec fn wrapped(n: int) -> ArithView {
    ArithView::Value(ValueView::Long((((n + 0x8000_0000_0000_0000) % 0x1_0000_0000_0000_0000) - 0x8000_0000_0000_0000) as i64))
}

/// An operation on numbers of which one is a float: both are taken as floats.  There is nothing for
/// what is no number.
pub open spec fn mixed(op: FloatOp, a: ValueView, b: ValueView) -> ArithView {
    match (a, b) {
        (ValueView::Double(x), ValueView::Double(y)) => ArithView::Float(op, x, y),
        (ValueView::Long(x), ValueView::Double(y)) => ArithView::Float(op, double::double_bits(x as int) as u64, y),
        (ValueView::Double(x), ValueView::Long(y)) => ArithView::Float(op, x, double::double_bits(y as int) as u64),
        _ => ArithView::Value(ValueView::Nil),
    }
}

/// The sum, difference or product of two integers.
pub open spec fn whole(op: FloatOp, x: int, y: int) -> int {
    match op {
        FloatOp::Add => x + y,
        FloatOp::Sub => x - y,
        _ => x * y,
    }
}

/// A sum, difference or product; of integers, one that fits.
pub open spec fn arith(op: FloatOp, a: ValueView, b: ValueView) -> ArithView {
    match (a, b) {
        (ValueView::Long(x), ValueView::Long(y)) => checked(whole(op, x as int, y as int)),
        _ => mixed(op, a, b),
    }
}

/// A sum, difference or product; of integers, what is left of it in a word.
pub open spec fn unchecked_arith(op: FloatOp, a: ValueView, b: ValueView) -> ArithView {
    match (a, b) {
        (ValueView::Long(x), ValueView::Long(y)) => wrapped(whole(op, x as int, y as int)),
        _ => mixed(op, a, b),
    }
}

fn mix(op: FloatOp, a: &Value, b: &Value) -> (r: Arith)
    ensures
        r@ == mixed(op, a@, b@),
{
    match (a, b) {
        (Value::Double(x), Value::Double(y)) => Arith::Float(op, *x, *y),
        (Value::Long(x), Value::Double(y)) => Arith::Float(op, double_of_long(*x), *y),
        (Value::Double(x), Value::Long(y)) => Arith::Float(op, *x, double_of_long(*y)),
        _ => Arith::Value(Value::Nil),
    }
}

/// The sum of two values.  Integers whose sum does not fit overflow.
pub fn rt_add(a: &Value, b: &Value) -> (r: Arith)
    ensures
        r@ == arith(FloatOp::Add, a@, b@),
{
    match (a, b) {
        (Value::Long(x), Value::Long(y)) => match x.checked_add(*y) {
            Some(s) => Arith::Value(Value::Long(s)),
            None => Arith::Overflow,
        },
        _ => mix(FloatOp::Add, a, b),
    }
}

/// The difference of two values.
pub fn rt_sub(a: &Value, b: &Value) -> (r: Arith)
    ensures
        r@ == arith(FloatOp::Sub, a@, b@),
{
    match (a, b) {
        (Value::Long(x), Value::Long(y)) => match x.checked_sub(*y) {
            Some(s) => Arith::Value(Value::Long(s)),
            None => Arith::Overflow,
        },
        _ => mix(FloatOp::Sub, a, b),
    }
}

/// The product of two values.
pub fn rt_mul(a: &Value, b: &Value) -> (r: Arith)
    ensures
        r@ == arith(FloatOp::Mul, a@, b@),
{
    match (a, b) {
        (Value::Long(x), Value::Long(y)) => match x.checked_mul(*y) {
            Some(s) => Arith::Value(Value::Long(s)),
            None => Arith::Overflow,
        },
        _ => mix(FloatOp::Mul, a, b),
    }
}

/// The sum of two values; of integers, what is left of it in a word.
pub fn rt_unchecked_add(a: &Value, b: &Value) -> (r: Arith)
    ensures
        r@ == unchecked_arith(FloatOp::Add, a@, b@),
{
    match (a, b) {
        (Value::Long(x), Value::Long(y)) => Arith::Value(Value::Long(x.wrapping_add(*y))),
        _ => mix(FloatOp::Add, a, b),
    }
}

/// The difference of two values; of integers, what is left of it in a word.
pub fn rt_unchecked_sub(a: &Value, b: &Value) -> (r: Arith)
    ensures
        r@ == unchecked_arith(FloatOp::Sub, a@, b@),
{
    match (a, b) {
        (Value::Long(x), Value::Long(y)) => Arith::Value(Value::Long(x.wrapping_sub(*y))),
        _ => mix(FloatOp::Sub, a, b),
    }
}

/// The product of two values; of integers, what is left of it in a word.
pub fn rt_unchecked_mul(a: &Value, b: &Value) -> (r: Arith)
    ensures
        r@ == unchecked_arith(FloatOp::Mul, a@, b@),
{
    match (a, b) {
        (Value::Long(x), Value::Long(y)) => Arith::Value(Value::Long(x.wrapping_mul(*y))),
        _ => mix(FloatOp::Mul, a, b),
    }
}

/// A quotient without its fraction.
pub open spec fn quotient(x: int, y: int) -> int {
    let q = magnitude(x) / magnitude(y);
    if (x < 0) == (y < 0) { q } else { -q }
}

/// What a quotient leaves; it has the sign of the dividend.
pub open spec fn remainder(x: int, y: int) -> int {
    let m = magnitude(x) % magnitude(y);
    if x < 0 { -m } else { m }
}

/// A number without its sign.
pub open spec fn magnitude(x: int) -> int {
    if x < 0 { -x } else { x }
}

/// A quotient; of integers, one without fraction, and none by zero.
pub open spec fn division(a: ValueView, b: ValueView) -> ArithView {
    match (a, b) {
        (ValueView::Long(x), ValueView::Long(y)) => if y == 0 {
            ArithView::Value(ValueView::Nil)
        } else {
            ArithView::Value(ValueView::Long(quotient(x as int, y as int) as i64))
        },
        _ => mixed(FloatOp::Div, a, b),
    }
}

/// A remainder, of two integers or of two floats.
pub open spec fn rest_of_division(a: ValueView, b: ValueView) -> ArithView {
    match (a, b) {
        (ValueView::Long(x), ValueView::Long(y)) => if y == 0 {
            ArithView::Value(ValueView::Nil)
        } else {
            ArithView::Value(ValueView::Long(remainder(x as int, y as int) as i64))
        },
        (ValueView::Double(x), ValueView::Double(y)) => ArithView::Float(FloatOp::Rem, x, y),
        _ => ArithView::Value(ValueView::Nil),
    }
}

/// The one quotient of integers that does not fit.
pub open spec fn is_too_large(a: ValueView, b: ValueView) -> bool {
    a == ValueView::Long(i64::MIN) && b == ValueView::Long(-1i64)
}

fn size(x: i64) -> (r: u64)
    ensures
        r == magnitude(x as int),
{
    if x < 0 { (-(x as i128)) as u64 } else { x as u64 }
}

/// The quotient of two values.
pub fn rt_div(a: &Value, b: &Value) -> (r: Arith)
    requires
        !is_too_large(a@, b@),
    ensures
        r@ == division(a@, b@),
{
    match (a, b) {
        (Value::Long(x), Value::Long(y)) => {
            if *y == 0 {
                return Arith::Value(Value::Nil);
            }
            let q: u64 = size(*x) / size(*y);
            proof {
                quotient_fits(*x, *y);
            }
            if (*x < 0) == (*y < 0) {
                Arith::Value(Value::Long(q as i64))
            } else {
                Arith::Value(Value::Long((-(q as i128)) as i64))
            }
        },
        _ => mix(FloatOp::Div, a, b),
    }
}

proof fn quotient_fits(x: i64, y: i64)
    requires
        y != 0,
        !(x == i64::MIN && y == -1),
    ensures
        0 <= magnitude(x as int) / magnitude(y as int) <= 0x8000_0000_0000_0000,
        (x < 0) == (y < 0) ==> magnitude(x as int) / magnitude(y as int) <= i64::MAX,
{
    let m = magnitude(x as int);
    let d = magnitude(y as int);
    assert(0 <= m / d <= m) by (nonlinear_arith)
        requires
            m >= 0,
            d >= 1,
    ;
    if m == 0x8000_0000_0000_0000 && d >= 2 {
        assert(m / d <= m / 2) by (nonlinear_arith)
            requires
                m >= 0,
                d >= 2,
        ;
    }
}

/// The remainder of two values.
pub fn rt_rem(a: &Value, b: &Value) -> (r: Arith)
    requires
        !is_too_large(a@, b@),
    ensures
        r@ == rest_of_division(a@, b@),
{
    match (a, b) {
        (Value::Long(x), Value::Long(y)) => {
            if *y == 0 {
                return Arith::Value(Value::Nil);
            }
            let m: u64 = size(*x) % size(*y);
            if *x < 0 {
                Arith::Value(Value::Long((-(m as i128)) as i64))
            } else {
                Arith::Value(Value::Long(m as i64))
            }
        },
        (Value::Double(x), Value::Double(y)) => Arith::Float(FloatOp::Rem, *x, *y),
        _ => Arith::Value(Value::Nil),
    }
}

/// A dividend is its quotient times the divisor, and the remainder.
pub proof fn division_adds_up(x: int, y: int)
    requires
        y != 0,
    ensures
        x == quotient(x, y) * y + remainder(x, y),
        magnitude(remainder(x, y)) < magnitude(y),
{
    let m = magnitude(x);
    let d = magnitude(y);
    let q = m / d;
    let r = m % d;
    assert(m == q * d + r && 0 <= r < d) by (nonlinear_arith)
        requires
            d > 0,
            q == m / d,
            r == m % d,
    ;
    assert((-q) * (-d) == q * d && q * (-d) == -(q * d) && (-q) * d == -(q * d)) by (nonlinear_arith);
}

/// The float is not a number.
pub open spec fn is_nan(bits: u64) -> bool {
    bits % 0x8000_0000_0000_0000 > 0x7ff0_0000_0000_0000
}

/// The place of a float among the others, by its sign and magnitude.
pub open spec fn rank(bits: u64) -> int {
    let m = (bits % 0x8000_0000_0000_0000) as int;
    if bits >= 0x8000_0000_0000_0000 { -m } else { m }
}

/// One float is less than another.
pub open spec fn double_less(x: u64, y: u64) -> bool {
    !is_nan(x) && !is_nan(y) && rank(x) < rank(y)
}

/// Two floats are equal; so are the two zeros, and what is not a number is equal to nothing.
pub open spec fn double_equal(x: u64, y: u64) -> bool {
    !is_nan(x) && !is_nan(y) && rank(x) == rank(y)
}

fn is_not_a_number(bits: u64) -> (r: bool)
    ensures
        r == is_nan(bits),
{
    bits % 0x8000_0000_0000_0000 > 0x7ff0_0000_0000_0000
}

fn rank_of(bits: u64) -> (r: i64)
    ensures
        r == rank(bits),
{
    let m: u64 = bits % 0x8000_0000_0000_0000;
    if bits >= 0x8000_0000_0000_0000 { -(m as i64) } else { m as i64 }
}

/// Whether one float is less than another.
pub fn is_double_less(x: u64, y: u64) -> (r: bool)
    ensures
        r == double_less(x, y),
{
    !is_not_a_number(x) && !is_not_a_number(y) && rank_of(x) < rank_of(y)
}

/// Whether two floats are equal.
pub fn is_double_equal(x: u64, y: u64) -> (r: bool)
    ensures
        r == double_equal(x, y),
{
    !is_not_a_number(x) && !is_not_a_number(y) && rank_of(x) == rank_of(y)
}

/// Two numbers of which one is a float, as floats.
pub open spec fn floats(a: ValueView, b: ValueView) -> Option<(u64, u64)> {
    match mixed(FloatOp::Sub, a, b) {
        ArithView::Float(_, x, y) => Some((x, y)),
        _ => None,
    }
}

fn to_floats(a: &Value, b: &Value) -> (r: Option<(u64, u64)>)
    ensures
        r == floats(a@, b@),
{
    match mix(FloatOp::Sub, a, b) {
        Arith::Float(_, x, y) => Some((x, y)),
        _ => None,
    }
}

/// One number comes before another, as floats where one is a float.  What is no number does not.
pub open spec fn lt(a: ValueView, b: ValueView) -> bool {
    match (a, b) {
        (ValueView::Long(x), ValueView::Long(y)) => x < y,
        _ => match floats(a, b) {
            Some((x, y)) => double_less(x, y),
            None => false,
        },
    }
}

/// Whether one number comes before another.
pub fn rt_lt(a: &Value, b: &Value) -> (r: Value)
    ensures
        r@ == ValueView::Bool(lt(a@, b@)),
{
    let is = match (a, b) {
        (Value::Long(x), Value::Long(y)) => *x < *y,
        _ => match to_floats(a, b) {
            Some((x, y)) => is_double_less(x, y),
            None => false,
        },
    };
    Value::Bool(is)
}

/// One number comes behind another, as floats where one is a float.  What is no number does not.
pub open spec fn gt(a: ValueView, b: ValueView) -> bool {
    match (a, b) {
        (ValueView::Long(x), ValueView::Long(y)) => x > y,
        _ => match floats(a, b) {
            Some((x, y)) => double_less(y, x),
            None => false,
        },
    }
}

/// Whether one number comes behind another.
pub fn rt_gt(a: &Value, b: &Value) -> (r: Value)
    ensures
        r@ == ValueView::Bool(gt(a@, b@)),
{
    let is = match (a, b) {
        (Value::Long(x), Value::Long(y)) => *x > *y,
        _ => match to_floats(a, b) {
            Some((x, y)) => is_double_less(y, x),
            None => false,
        },
    };
    Value::Bool(is)
}

/// One number comes no later than another, as floats where one is a float.  What is no number does not.
pub open spec fn lte(a: ValueView, b: ValueView) -> bool {
    match (a, b) {
        (ValueView::Long(x), ValueView::Long(y)) => x <= y,
        _ => match floats(a, b) {
            Some((x, y)) => double_less(x, y) || double_equal(x, y),
            None => false,
        },
    }
}

/// Whether one number comes no later than another.
pub fn rt_lte(a: &Value, b: &Value) -> (r: Value)
    ensures
        r@ == ValueView::Bool(lte(a@, b@)),
{
    let is = match (a, b) {
        (Value::Long(x), Value::Long(y)) => *x <= *y,
        _ => match to_floats(a, b) {
            Some((x, y)) => is_double_less(x, y) || is_double_equal(x, y),
            None => false,
        },
    };
    Value::Bool(is)
}

/// One number comes no earlier than another, as floats where one is a float.  What is no number does not.
pub open spec fn gte(a: ValueView, b: ValueView) -> bool {
    match (a, b) {
        (ValueView::Long(x), ValueView::Long(y)) => x >= y,
        _ => match floats(a, b) {
            Some((x, y)) => double_less(y, x) || double_equal(x, y),
            None => false,
        },
    }
}

/// Whether one number comes no earlier than another.
pub fn rt_gte(a: &Value, b: &Value) -> (r: Value)
    ensures
        r@ == ValueView::Bool(gte(a@, b@)),
{
    let is = match (a, b) {
        (Value::Long(x), Value::Long(y)) => *x >= *y,
        _ => match to_floats(a, b) {
            Some((x, y)) => is_double_less(y, x) || is_double_equal(x, y),
            None => false,
        },
    };
    Value::Bool(is)
}

/// Of two numbers one is less than the other, or they are equal, or one of them is not a number.
pub proof fn numbers_are_ordered(x: u64, y: u64, z: u64)
    ensures
        !is_nan(x) && !is_nan(y) ==> double_less(x, y) || double_less(y, x) || double_equal(x, y),
        !(double_less(x, y) && double_less(y, x)),
        double_less(x, y) && double_less(y, z) ==> double_less(x, z),
{
}

/// Whether two values are equal.
pub fn rt_eq<F: Fn(&Value, &Value) -> bool>(a: &Value, b: &Value, eq: &F) -> (r: Value)
    requires
        equality::is_equality(*eq),
    ensures
        r@ == ValueView::Bool(equality::says(*eq, a@, b@)),
{
    Value::Bool(equal(eq, a, b))
}

/// The kinds of numbers that are told apart in a case: integers of any size are one.
pub open spec fn number_kind(v: ValueView) -> Option<int> {
    match v {
        ValueView::Long(_) => Some(0),
        ValueView::BigInt(_) => Some(0),
        ValueView::Double(_) => Some(1),
        ValueView::BigDecimal(_) => Some(2),
        ValueView::Ratio(_) => Some(3),
        _ => None,
    }
}

/// Numbers of two kinds are never equal in a case.
pub open spec fn are_told_apart(a: ValueView, b: ValueView) -> bool {
    number_kind(a) is Some && number_kind(b) is Some && number_kind(a) != number_kind(b)
}

fn kind_of_number(v: &Value) -> (r: u8)
    ensures
        number_kind(v@) is None <==> r == 9,
        number_kind(v@) is Some ==> r == number_kind(v@)->0,
{
    match v {
        Value::Long(_) => 0,
        Value::BigInt(_) => 0,
        Value::Double(_) => 1,
        Value::BigDecimal(_) => 2,
        Value::Ratio(_) => 3,
        _ => 9,
    }
}

/// Whether two values are equal in a case: metadata does not tell them apart, nor make numbers of two
/// kinds equal.
pub fn rt_case_eq<F: Fn(&Value, &Value) -> bool>(a: &Value, b: &Value, eq: &F) -> (r: Value)
    requires
        equality::is_equality(*eq),
    ensures
        r@ == ValueView::Bool(!are_told_apart(value::bare(a@), value::bare(b@)) && equality::says(*eq, a@, b@)),
{
    let x: u8 = kind_of_number(bare_value(a));
    let y: u8 = kind_of_number(bare_value(b));
    if x != 9 && y != 9 && x != y {
        return Value::Bool(false);
    }
    Value::Bool(equal(eq, a, b))
}

/// The value counts as true.
pub open spec fn truthy(v: ValueView) -> bool {
    v != ValueView::Nil && v != ValueView::Bool(false)
}

/// Whether the value counts as true: all do but nil and false.
pub fn rt_truthiness(v: &Value) -> (r: u8)
    ensures
        r == (if truthy(v@) { 1u8 } else { 0u8 }),
{
    match v {
        Value::Nil => 0,
        Value::Bool(b) => if *b { 1 } else { 0 },
        _ => 1,
    }
}

/// Whether the value is nil.
pub fn rt_is_nil(v: &Value) -> (r: Value)
    ensures
        r@ == ValueView::Bool(v@ is Nil),
{
    match v {
        Value::Nil => Value::Bool(true),
        _ => Value::Bool(false),
    }
}

/// Whether the value is a vector.
pub fn rt_is_vector(v: &Value) -> (r: Value)
    ensures
        r@ == ValueView::Bool(v@ is Vector),
{
    match v {
        Value::Vector(_) => Value::Bool(true),
        _ => Value::Bool(false),
    }
}

/// Whether the value is a map.
pub fn rt_is_map(v: &Value) -> (r: Value)
    ensures
        r@ == ValueView::Bool(v@ is Dict),
{
    match v {
        Value::Dict(_) => Value::Bool(true),
        _ => Value::Bool(false),
    }
}

/// Whether the value is a text.
pub fn rt_is_string(v: &Value) -> (r: Value)
    ensures
        r@ == ValueView::Bool(v@ is Str),
{
    match v {
        Value::Str(_) => Value::Bool(true),
        _ => Value::Bool(false),
    }
}

/// Whether the value is a keyword.
pub fn rt_is_keyword(v: &Value) -> (r: Value)
    ensures
        r@ == ValueView::Bool(v@ is Keyword),
{
    match v {
        Value::Keyword(_) => Value::Bool(true),
        _ => Value::Bool(false),
    }
}

/// Whether the value is a symbol.
pub fn rt_is_symbol(v: &Value) -> (r: Value)
    ensures
        r@ == ValueView::Bool(v@ is Symbol),
{
    match v {
        Value::Symbol(_) => Value::Bool(true),
        _ => Value::Bool(false),
    }
}

/// Whether the value is a truth value.
pub fn rt_is_bool(v: &Value) -> (r: Value)
    ensures
        r@ == ValueView::Bool(v@ is Bool),
{
    match v {
        Value::Bool(_) => Value::Bool(true),
        _ => Value::Bool(false),
    }
}

/// Whether the value is an integer.
pub fn rt_is_int(v: &Value) -> (r: Value)
    ensures
        r@ == ValueView::Bool(v@ is Long),
{
    match v {
        Value::Long(_) => Value::Bool(true),
        _ => Value::Bool(false),
    }
}

/// Whether the value is an integer of a word or a float.
pub fn rt_is_number(v: &Value) -> (r: Value)
    ensures
        r@ == ValueView::Bool(v@ is Long || v@ is Double),
{
    match v {
        Value::Long(_) => Value::Bool(true),
        Value::Double(_) => Value::Bool(true),
        _ => Value::Bool(false),
    }
}

/// Whether the value is a sequence.
pub fn rt_is_seq(v: &Value) -> (r: Value)
    ensures
        r@ == ValueView::Bool(v@ is List || v@ is Cons || v@ is LazySeq),
{
    match v {
        Value::List(_) => Value::Bool(true),
        Value::Cons(_, _) => Value::Bool(true),
        Value::LazySeq(_) => Value::Bool(true),
        _ => Value::Bool(false),
    }
}

/// The tag of any other value.
pub const TAG_OTHER: i64 = 0;

/// The tag of an integer.
pub const TAG_LONG: i64 = 1;

/// The tag of a float.
pub const TAG_DOUBLE: i64 = 2;

/// The tag of a truth value.
pub const TAG_BOOL: i64 = 3;

/// The tag of nil.
pub const TAG_NIL: i64 = 4;

/// The tag that compiled code tells the kinds of values by.
pub open spec fn tag(v: ValueView) -> i64 {
    match v {
        ValueView::Long(_) => TAG_LONG,
        ValueView::Double(_) => TAG_DOUBLE,
        ValueView::Bool(_) => TAG_BOOL,
        ValueView::Nil => TAG_NIL,
        _ => TAG_OTHER,
    }
}

/// The tag of a value.
pub fn rt_value_tag(v: &Value) -> (r: i64)
    ensures
        r == tag(v@),
{
    match v {
        Value::Long(_) => TAG_LONG,
        Value::Double(_) => TAG_DOUBLE,
        Value::Bool(_) => TAG_BOOL,
        Value::Nil => TAG_NIL,
        _ => TAG_OTHER,
    }
}

/// The integer in a value, and zero where there is none.
pub fn rt_unbox_long(v: &Value) -> (r: i64)
    ensures
        r == (match v@ {
            ValueView::Long(n) => n,
            _ => 0,
        }),
{
    match v {
        Value::Long(n) => *n,
        _ => 0,
    }
}

/// The float in a value, and zero where there is none.
pub fn rt_unbox_double(v: &Value) -> (r: u64)
    ensures
        r == (match v@ {
            ValueView::Double(d) => d,
            _ => 0,
        }),
{
    match v {
        Value::Double(d) => *d,
        _ => 0,
    }
}

/// The truth value of a byte.
pub fn rt_box_bool(b: u8) -> (r: Value)
    ensures
        r@ == ValueView::Bool(b != 0),
{
    Value::Bool(b != 0)
}

/// A value that passes its guard is what was boxed: the tag says which field to read.
pub proof fn what_was_boxed_comes_out(n: i64, d: u64)
    ensures
        tag(ValueView::Long(n)) == TAG_LONG,
        tag(ValueView::Double(d)) == TAG_DOUBLE,
        forall|v: ValueView| #[trigger] tag(v) == TAG_LONG ==> v is Long,
        forall|v: ValueView| #[trigger] tag(v) == TAG_DOUBLE ==> v is Double,
        forall|v: ValueView| #[trigger] tag(v) == TAG_BOOL ==> v is Bool,
{
}

/// Nil.
pub fn rt_const_nil() -> (r: Value)
    ensures
        r@ == ValueView::Nil,
{
    Value::Nil
}

/// True.
pub fn rt_const_true() -> (r: Value)
    ensures
        r@ == ValueView::Bool(true),
{
    Value::Bool(true)
}

/// False.
pub fn rt_const_false() -> (r: Value)
    ensures
        r@ == ValueView::Bool(false),
{
    Value::Bool(false)
}

/// An integer.
pub fn rt_const_long(n: i64) -> (r: Value)
    ensures
        r@ == ValueView::Long(n),
{
    Value::Long(n)
}

/// A float, by its bit pattern.
pub fn rt_const_double(bits: u64) -> (r: Value)
    ensures
        r@ == ValueView::Double(bits),
{
    Value::Double(bits)
}

/// The exception for an integer that does not fit.
pub fn rt_overflow_error() -> (r: Value)
    ensures
        r@ == ValueView::Error("integer overflow"@),
{
    Value::Error("integer overflow".to_owned())
}

} // verus!
