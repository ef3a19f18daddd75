//! The equality of values, which belongs to the host.
use crate::value::{Value, ValueView};
use vstd::prelude::*;

verus! {

/// The equality holds two values equal.
pub open spec fn says<F: Fn(&Value, &Value) -> bool>(eq: F, a: ValueView, b: ValueView) -> bool {
    exists|x: &Value, y: &Value| #![trigger call_ensures(eq, (x, y), true)] x@ == a && y@ == b && call_ensures(eq, (x, y), true)
}

/// The equality answers always, and by what the values are alone.
pub open spec fn is_equality<F: Fn(&Value, &Value) -> bool>(eq: F) -> bool {
    &&& forall|x: &Value, y: &Value| #[trigger] call_requires(eq, (x, y))
    &&& forall|x: &Value, y: &Value, r: bool| #[trigger] call_ensures(eq, (x, y), r) ==> r == says(eq, x@, y@)
}

/// The equality is one: of everything to itself, both ways, and from one to the next.
pub open spec fn is_equivalence<F: Fn(&Value, &Value) -> bool>(eq: F) -> bool {
    &&& forall|a: ValueView| #[trigger] says(eq, a, a)
    &&& forall|a: ValueView, b: ValueView| #[trigger] says(eq, a, b) ==> says(eq, b, a)
    &&& forall|a: ValueView, b: ValueView, c: ValueView| #[trigger] says(eq, a, b) && #[trigger] says(eq, b, c) ==> says(eq, a, c)
}

/// Whether two values are equal.
pub fn equal<F: Fn(&Value, &Value) -> bool>(eq: &F, a: &Value, b: &Value) -> (r: bool)
    requires
        is_equality(*eq),
    ensures
        r == says(*eq, a@, b@),
{
    eq(a, b)
}

} // verus!
