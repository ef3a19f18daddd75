//! Arrays.
use crate::double;
use crate::double::double_of_long;
use crate::rt_abi::sequences::char_value;
use crate::text;
use crate::text::render_decimal;
use crate::value;
use crate::value::{copy_value, Value, ValueView};
use vstd::prelude::*;
use vstd::string::*;

verus! {

/// An integer in decimal.
pub open spec fn signed(n: int) -> Seq<char> {
    if n < 0 { "-"@ + text::decimal((-n) as nat) } else { text::decimal(n as nat) }
}

fn render_signed(n: i64) -> (r: String)
    ensures
        r@ == signed(n as int),
{
    if n < 0 {
        let m: u64 = (-(n as i128)) as u64;
        "-".to_owned().concat(render_decimal(m).as_str())
    } else {
        render_decimal(n as u64)
    }
}

/// The complaint about a position outside an array.  It has a structure of its own, but for a position
/// before the start.
pub open spec fn out_of_bounds(i: int, len: nat) -> ValueView {
    if i >= 0 { ValueView::OutOfBounds(i as usize, len as usize) } else { ValueView::Error(bounds_text(i, len)) }
}

/// The words for a position outside a collection.
pub open spec fn bounds_text(i: int, len: nat) -> Seq<char> {
    "index out of bounds: "@ + signed(i) + " >= "@ + text::decimal(len)
}

/// The words for a position outside a collection.
pub fn bounds_message(i: i64, len: usize) -> (r: String)
    ensures
        r@ == bounds_text(i as int, len as nat),
{
    "index out of bounds: ".to_owned().concat(render_signed(i).as_str()).concat(" >= ").concat(render_decimal(len as u64).as_str())
}

fn bounds_error(i: i64, len: usize) -> (r: Value)
    ensures
        r@ == out_of_bounds(i as int, len as nat),
{
    if i >= 0 {
        Value::OutOfBounds(i as usize, len)
    } else {
        Value::Error(bounds_message(i, len))
    }
}

/// The complaint about a value of the wrong kind, which the host calls `kind`.
pub open spec fn not_a(what: Seq<char>, kind: Seq<char>) -> ValueView {
    ValueView::Error(what + kind)
}

fn kind_error(what: &str, kind: &str) -> (r: Value)
    ensures
        r@ == not_a(what@, kind@),
{
    Value::Error(what.to_owned().concat(kind))
}

/// The number of elements of an array.
pub open spec fn array_len(v: ValueView) -> Option<nat> {
    match v {
        ValueView::ObjectArray(a) => Some(a.len()),
        ValueView::IntArray(a) => Some(a.len()),
        ValueView::LongArray(a) => Some(a.len()),
        ValueView::ShortArray(a) => Some(a.len()),
        ValueView::ByteArray(a) => Some(a.len()),
        ValueView::FloatArray(a) => Some(a.len()),
        ValueView::DoubleArray(a) => Some(a.len()),
        ValueView::BooleanArray(a) => Some(a.len()),
        ValueView::CharArray(a) => Some(a.len()),
        _ => None,
    }
}

fn length(v: &Value) -> (r: Option<usize>)
    ensures
        match r {
            Some(n) => array_len(v@) == Some(n as nat),
            None => array_len(v@) is None,
        },
{
    match v {
        Value::ObjectArray(a) => {
            proof {
                value::views_at(a@);
            }
            Some(a.len())
        },
        Value::IntArray(a) => Some(a.len()),
        Value::LongArray(a) => Some(a.len()),
        Value::ShortArray(a) => Some(a.len()),
        Value::ByteArray(a) => Some(a.len()),
        Value::FloatArray(a) => Some(a.len()),
        Value::DoubleArray(a) => Some(a.len()),
        Value::BooleanArray(a) => Some(a.len()),
        Value::CharArray(a) => Some(a.len()),
        _ => None,
    }
}

/// The number of elements of an array; what is none is thrown, with what the host calls its kind.
pub fn rt_alength(arr: &Value, kind: &str) -> (r: Result<i64, Value>)
    ensures
        match array_len(arr@) {
            Some(n) => r == Ok::<i64, Value>(n as i64),
            None => r is Err && r->Err_0@ == not_a("alength: not an array: "@, kind@),
        },
{
    match length(arr) {
        Some(n) => Ok(n as i64),
        None => Err(kind_error("alength: not an array: ", kind)),
    }
}

fn in_range(i: i64, len: usize) -> (r: bool)
    ensures
        r == (0 <= i < len),
{
    i >= 0 && (i as u64) < (len as u64)
}

/// The element of an array of integers at a position.
pub fn rt_aget_long(arr: &Value, i: i64, kind: &str) -> (r: Result<i64, Value>)
    ensures
        match arr@ {
            ValueView::LongArray(a) => if 0 <= i < a.len() { r == Ok::<i64, Value>(a[i as int]) } else { r is Err && r->Err_0@ == out_of_bounds(i as int, a.len()) },
            _ => r is Err && r->Err_0@ == not_a("aget: not a long array: "@, kind@),
        },
{
    match arr {
        Value::LongArray(a) => if in_range(i, a.len()) { Ok(a[i as usize]) } else { Err(bounds_error(i, a.len())) },
        _ => Err(kind_error("aget: not a long array: ", kind)),
    }
}

/// The element of an array of floats at a position, by its bit pattern.
pub fn rt_aget_double(arr: &Value, i: i64, kind: &str) -> (r: Result<u64, Value>)
    ensures
        match arr@ {
            ValueView::DoubleArray(a) => if 0 <= i < a.len() { r == Ok::<u64, Value>(a[i as int]) } else { r is Err && r->Err_0@ == out_of_bounds(i as int, a.len()) },
            _ => r is Err && r->Err_0@ == not_a("aget: not a double array: "@, kind@),
        },
{
    match arr {
        Value::DoubleArray(a) => if in_range(i, a.len()) { Ok(a[i as usize]) } else { Err(bounds_error(i, a.len())) },
        _ => Err(kind_error("aget: not a double array: ", kind)),
    }
}

/// Sets the element of an array of integers at a position.
pub fn rt_aset_long(arr: &mut Value, i: i64, v: i64, kind: &str) -> (r: Result<Value, Value>)
    ensures
        match old(arr)@ {
            ValueView::LongArray(a) => if 0 <= i < a.len() {
                r is Ok && r->Ok_0@ == ValueView::Long(v) && final(arr)@ == ValueView::LongArray(a.update(i as int, v))
            } else {
                r is Err && r->Err_0@ == out_of_bounds(i as int, a.len()) && final(arr)@ == old(arr)@
            },
            _ => r is Err && r->Err_0@ == not_a("aset: not a long array: "@, kind@) && final(arr)@ == old(arr)@,
        },
{
    match arr {
        Value::LongArray(a) => {
            if !in_range(i, a.len()) {
                return Err(bounds_error(i, a.len()));
            }
            a.set(i as usize, v);
            Ok(Value::Long(v))
        },
        _ => Err(kind_error("aset: not a long array: ", kind)),
    }
}

/// Sets the element of an array of floats at a position.
pub fn rt_aset_double(arr: &mut Value, i: i64, bits: u64, kind: &str) -> (r: Result<Value, Value>)
    ensures
        match old(arr)@ {
            ValueView::DoubleArray(a) => if 0 <= i < a.len() {
                r is Ok && r->Ok_0@ == ValueView::Double(bits) && final(arr)@ == ValueView::DoubleArray(a.update(i as int, bits))
            } else {
                r is Err && r->Err_0@ == out_of_bounds(i as int, a.len()) && final(arr)@ == old(arr)@
            },
            _ => r is Err && r->Err_0@ == not_a("aset: not a double array: "@, kind@) && final(arr)@ == old(arr)@,
        },
{
    match arr {
        Value::DoubleArray(a) => {
            if !in_range(i, a.len()) {
                return Err(bounds_error(i, a.len()));
            }
            a.set(i as usize, bits);
            Ok(Value::Double(bits))
        },
        _ => Err(kind_error("aset: not a double array: ", kind)),
    }
}

/// An element of an array.
#[derive(Debug)]
pub enum Element {
    Value(Value),
    /// A short float, by its bit pattern, which the machine widens.
    Float(u32),
}

/// An element of an array.
pub enum ElementView {
    Value(ValueView),
    Float(u32),
}

impl View for Element {
    type V = ElementView;

    open spec fn view(&self) -> ElementView {
        match *self {
            Element::Value(v) => ElementView::Value(v@),
            Element::Float(bits) => ElementView::Float(bits),
        }
    }
}

/// The element of an array at a position inside it.
pub open spec fn element(arr: ValueView, i: int) -> ElementView {
    match arr {
        ValueView::ObjectArray(a) => ElementView::Value(a[i]),
        ValueView::LongArray(a) => ElementView::Value(ValueView::Long(a[i])),
        ValueView::IntArray(a) => ElementView::Value(ValueView::Long(a[i] as i64)),
        ValueView::ShortArray(a) => ElementView::Value(ValueView::Long(a[i] as i64)),
        ValueView::ByteArray(a) => ElementView::Value(ValueView::Long(a[i] as i64)),
        ValueView::DoubleArray(a) => ElementView::Value(ValueView::Double(a[i])),
        ValueView::FloatArray(a) => ElementView::Float(a[i]),
        ValueView::BooleanArray(a) => ElementView::Value(ValueView::Bool(a[i])),
        ValueView::CharArray(a) => ElementView::Value(ValueView::Char(a[i])),
        _ => ElementView::Value(ValueView::Nil),
    }
}

/// What loading an element comes to: the index has to be an integer, the value an array, and the
/// index inside it.
pub open spec fn loaded(arr: ValueView, idx: ValueView, kind: Seq<char>) -> Result<ElementView, ValueView> {
    match idx {
        ValueView::Long(i) => match array_len(arr) {
            Some(n) => if 0 <= i < n { Ok(element(arr, i as int)) } else { Err(out_of_bounds(i as int, n)) },
            None => Err(not_a("aget: not an array: "@, kind)),
        },
        _ => Err(ValueView::Error("aget: index must be an integer"@)),
    }
}

fn load(arr: &Value, i: usize) -> (r: Element)
    requires
        array_len(arr@) is Some,
        i < array_len(arr@)->0,
    ensures
        r@ == element(arr@, i as int),
{
    match arr {
        Value::ObjectArray(a) => {
            proof {
                value::views_at(a@);
            }
            Element::Value(copy_value(&a[i]))
        },
        Value::LongArray(a) => Element::Value(Value::Long(a[i])),
        Value::IntArray(a) => Element::Value(Value::Long(a[i] as i64)),
        Value::ShortArray(a) => Element::Value(Value::Long(a[i] as i64)),
        Value::ByteArray(a) => Element::Value(Value::Long(a[i] as i64)),
        Value::DoubleArray(a) => Element::Value(Value::Double(a[i])),
        Value::FloatArray(a) => Element::Float(a[i]),
        Value::BooleanArray(a) => Element::Value(Value::Bool(a[i])),
        Value::CharArray(a) => Element::Value(char_value(a[i])),
        _ => Element::Value(Value::Nil),
    }
}

/// The element of any array at a position.
pub fn rt_aget(arr: &Value, idx: &Value, kind: &str) -> (r: Result<Element, Value>)
    ensures
        match (r, loaded(arr@, idx@, kind@)) {
            (Ok(e), Ok(want)) => e@ == want,
            (Err(e), Err(want)) => e@ == want,
            _ => false,
        },
{
    match idx {
        Value::Long(i) => match length(arr) {
            Some(n) => if in_range(*i, n) { Ok(load(arr, *i as usize)) } else { Err(bounds_error(*i, n)) },
            None => Err(kind_error("aget: not an array: ", kind)),
        },
        _ => Err(Value::Error("aget: index must be an integer".to_owned())),
    }
}

/// What is stored for a value in an array, where the array takes it.
pub open spec fn stored(arr: ValueView, i: int, v: ValueView) -> Option<ValueView> {
    match arr {
        ValueView::ObjectArray(a) => Some(ValueView::ObjectArray(a.update(i, v))),
        ValueView::LongArray(a) => match v {
            ValueView::Long(n) => Some(ValueView::LongArray(a.update(i, n))),
            _ => None,
        },
        ValueView::DoubleArray(a) => match v {
            ValueView::Double(d) => Some(ValueView::DoubleArray(a.update(i, d))),
            ValueView::Long(n) => Some(ValueView::DoubleArray(a.update(i, double::double_bits(n as int) as u64))),
            _ => None,
        },
        ValueView::IntArray(a) => match v {
            ValueView::Long(n) => Some(ValueView::IntArray(a.update(i, n as i32))),
            _ => None,
        },
        _ => None,
    }
}

/// The array is of a kind that can be stored into.
pub open spec fn takes_values(arr: ValueView) -> bool {
    arr is ObjectArray || arr is LongArray || arr is DoubleArray || arr is IntArray
}

/// What storing an element comes to: the array afterwards, or the complaint.
pub open spec fn storing(arr: ValueView, idx: ValueView, v: ValueView, kind: Seq<char>) -> Result<ValueView, ValueView> {
    match idx {
        ValueView::Long(i) => if !takes_values(arr) {
            Err(not_a("aset: unsupported array type: "@, kind))
        } else if !(0 <= i < array_len(arr)->0) {
            Err(out_of_bounds(i as int, array_len(arr)->0))
        } else {
            match stored(arr, i as int, v) {
                Some(after) => Ok(after),
                None => Err(ValueView::Error("aset: value type does not match array"@)),
            }
        },
        _ => Err(ValueView::Error("aset: index must be an integer"@)),
    }
}

fn mismatch() -> (r: Value)
    ensures
        r@ == ValueView::Error("aset: value type does not match array"@),
{
    Value::Error("aset: value type does not match array".to_owned())
}

fn truncated(n: i64) -> (r: i32)
    ensures
        r == n as i32,
{
    #[verifier::truncate]
    (n as i32)
}

fn store(arr: &mut Value, i: i64, v: &Value, kind: &str) -> (r: Result<(), Value>)
    ensures
        match (r, storing(old(arr)@, ValueView::Long(i), v@, kind@)) {
            (Ok(_), Ok(after)) => final(arr)@ == after,
            (Err(e), Err(want)) => e@ == want && final(arr)@ == old(arr)@,
            _ => false,
        },
{
    match arr {
        Value::ObjectArray(a) => {
            proof {
                value::views_at(a@);
            }
            if !in_range(i, a.len()) {
                return Err(bounds_error(i, a.len()));
            }
            let x = copy_value(v);
            proof {
                value::views_at(a@.update(i as int, x));
                assert(value::views(a@.update(i as int, x)) =~= value::views(a@).update(i as int, x@));
            }
            a.set(i as usize, x);
            Ok(())
        },
        Value::LongArray(a) => {
            if !in_range(i, a.len()) {
                return Err(bounds_error(i, a.len()));
            }
            match v {
                Value::Long(n) => {
                    a.set(i as usize, *n);
                    Ok(())
                },
                _ => Err(mismatch()),
            }
        },
        Value::DoubleArray(a) => {
            if !in_range(i, a.len()) {
                return Err(bounds_error(i, a.len()));
            }
            match v {
                Value::Double(d) => {
                    a.set(i as usize, *d);
                    Ok(())
                },
                Value::Long(n) => {
                    a.set(i as usize, double_of_long(*n));
                    Ok(())
                },
                _ => Err(mismatch()),
            }
        },
        Value::IntArray(a) => {
            if !in_range(i, a.len()) {
                return Err(bounds_error(i, a.len()));
            }
            match v {
                Value::Long(n) => {
                    a.set(i as usize, truncated(*n));
                    Ok(())
                },
                _ => Err(mismatch()),
            }
        },
        _ => Err(kind_error("aset: unsupported array type: ", kind)),
    }
}

/// Sets the element of an array at a position, and returns the value.
pub fn rt_aset(arr: &mut Value, idx: &Value, v: &Value, kind: &str) -> (r: Result<Value, Value>)
    ensures
        match (r, storing(old(arr)@, idx@, v@, kind@)) {
            (Ok(x), Ok(after)) => x@ == v@ && final(arr)@ == after,
            (Err(e), Err(want)) => e@ == want && final(arr)@ == old(arr)@,
            _ => false,
        },
{
    match idx {
        Value::Long(i) => match store(arr, *i, v, kind) {
            Ok(_) => Ok(copy_value(v)),
            Err(e) => Err(e),
        },
        _ => Err(Value::Error("aset: index must be an integer".to_owned())),
    }
}

/// What was stored is loaded: where a store succeeds, a load at the same position gives the value
/// back, but for what an array of floats or of short integers makes of it.
pub proof fn what_was_stored_is_loaded(arr: ValueView, i: i64, v: ValueView, kind: Seq<char>)
    requires
        storing(arr, ValueView::Long(i), v, kind) is Ok,
    ensures
        ({
            let after = storing(arr, ValueView::Long(i), v, kind)->Ok_0;
            let got = loaded(after, ValueView::Long(i), kind);
            &&& got is Ok
            &&& arr is ObjectArray || arr is LongArray ==> got->Ok_0 == ElementView::Value(v)
            &&& arr is DoubleArray && v is Double ==> got->Ok_0 == ElementView::Value(v)
            &&& forall|k: i64| 0 <= k < array_len(arr)->0 && k != i ==> #[trigger] loaded(after, ValueView::Long(k), kind) == loaded(arr, ValueView::Long(k), kind)
        }),
{
}

} // verus!
