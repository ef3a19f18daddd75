//! What changes in place: transients, atoms and dynamic variables.
use crate::rt_abi::calls::Invoked;
use crate::rt_abi::collections;
use crate::rt_abi::equality;
use crate::rt_abi::equality::equal;
use crate::rt_abi::sequences;
use crate::rt_abi::sequences::add_all;
use crate::value;
use crate::value::{copy_value, Value, ValueView};
use vstd::prelude::*;

verus! {

/// The kinds of transients.
#[derive(Clone, Copy, Debug, PartialEq, Eq, Structural)]
pub enum Transient {
    Vector,
    Dict,
    HashSet,
    /// No transient: a value that stands for itself.
    Other,
}

/// The kind of transient that a collection has.
pub open spec fn transient_of(coll: ValueView, hashed: bool) -> Transient {
    match coll {
        ValueView::Vector(_) => Transient::Vector,
        ValueView::Dict(_) => if hashed { Transient::Dict } else { Transient::Other },
        ValueView::HashSet(_) => Transient::HashSet,
        _ => Transient::Other,
    }
}

/// The transient that is made of a collection.  Of maps and sets only hashed ones have one; whether
/// a map is held hashed is for the host to say.
pub fn rt_transient(coll: &Value, hashed: bool) -> (r: Transient)
    ensures
        r == (match coll@ {
            ValueView::Vector(_) => Transient::Vector,
            ValueView::Dict(_) => if hashed { Transient::Dict } else { Transient::Other },
            ValueView::HashSet(_) => Transient::HashSet,
            _ => Transient::Other,
        }),
        r == transient_of(coll@, hashed),
{
    match coll {
        Value::Vector(_) => Transient::Vector,
        Value::Dict(_) => if hashed { Transient::Dict } else { Transient::Other },
        Value::HashSet(_) => Transient::HashSet,
        _ => Transient::Other,
    }
}

/// A change of a transient.
#[derive(Debug)]
pub enum Change {
    Nothing,
    /// An entry of a map.
    Entry(Value, Value),
    /// An element of a vector, by its position.
    At(u64, Value),
    /// One more element behind the others.
    Append(Value),
    /// A member of a set.
    Member(Value),
}

/// A change of a transient.
pub enum ChangeView {
    Nothing,
    Entry(ValueView, ValueView),
    At(u64, ValueView),
    Append(ValueView),
    Member(ValueView),
}

impl View for Change {
    type V = ChangeView;

    open spec fn view(&self) -> ChangeView {
        match *self {
            Change::Nothing => ChangeView::Nothing,
            Change::Entry(k, v) => ChangeView::Entry(k@, v@),
            Change::At(i, v) => ChangeView::At(i, v@),
            Change::Append(v) => ChangeView::Append(v@),
            Change::Member(v) => ChangeView::Member(v@),
        }
    }
}

/// What setting a key changes.
pub open spec fn change_of_assoc(t: Transient, k: ValueView, v: ValueView) -> ChangeView {
    match (t, k) {
        (Transient::Dict, _) => ChangeView::Entry(k, v),
        (Transient::Vector, ValueView::Long(i)) => ChangeView::At(i as u64, v),
        _ => ChangeView::Nothing,
    }
}

/// What setting a key of a transient changes.  A vector is set at an integer alone.
pub fn rt_assoc_bang(t: Transient, k: &Value, v: &Value) -> (r: Change)
    ensures
        r@ == (match (t, k@) {
            (Transient::Dict, _) => ChangeView::Entry(k@, v@),
            (Transient::Vector, ValueView::Long(i)) => ChangeView::At(i as u64, v@),
            _ => ChangeView::Nothing,
        }),
        r@ == change_of_assoc(t, k@, v@),
{
    match t {
        Transient::Dict => Change::Entry(copy_value(k), copy_value(v)),
        Transient::Vector => match k {
            Value::Long(i) => Change::At(*i as u64, copy_value(v)),
            _ => Change::Nothing,
        },
        _ => Change::Nothing,
    }
}

/// What adding a value changes.
pub open spec fn change_of_conj(t: Transient, v: ValueView) -> ChangeView {
    match t {
        Transient::Vector => ChangeView::Append(v),
        Transient::HashSet => ChangeView::Member(v),
        Transient::Dict => match v {
            ValueView::Vector(vs) => if vs.len() == 2 { ChangeView::Entry(vs[0], vs[1]) } else { ChangeView::Nothing },
            _ => ChangeView::Nothing,
        },
        Transient::Other => ChangeView::Nothing,
    }
}

/// What adding a value to a transient changes.  A map takes a vector of a key and a value alone.
pub fn rt_conj_bang(t: Transient, v: &Value) -> (r: Change)
    ensures
        r@ == (match t {
            Transient::Vector => ChangeView::Append(v@),
            Transient::HashSet => ChangeView::Member(v@),
            Transient::Dict => match v@ {
                ValueView::Vector(vs) => if vs.len() == 2 { ChangeView::Entry(vs[0], vs[1]) } else { ChangeView::Nothing },
                _ => ChangeView::Nothing,
            },
            Transient::Other => ChangeView::Nothing,
        }),
        r@ == change_of_conj(t, v@),
{
    match t {
        Transient::Vector => Change::Append(copy_value(v)),
        Transient::HashSet => Change::Member(copy_value(v)),
        Transient::Dict => match v {
            Value::Vector(vs) => {
                proof {
                    value::views_at(vs@);
                }
                if vs.len() == 2 {
                    assert(value::views(vs@)[0] == value::view(vs@[0]));
                    assert(value::views(vs@)[1] == value::view(vs@[1]));
                    Change::Entry(copy_value(&vs[0]), copy_value(&vs[1]))
                } else {
                    Change::Nothing
                }
            },
            _ => Change::Nothing,
        },
        Transient::Other => Change::Nothing,
    }
}

/// What a transient comes to in the end: the collection that it holds, or nil where it has ended
/// before.  Any other value stands for itself.
pub fn rt_persistent_bang(t: Transient, v: &Value, collection: Option<Value>) -> (r: Value)
    ensures
        r@ == (match (t, collection) {
            (Transient::Other, _) => v@,
            (_, Some(c)) => c@,
            (_, None) => ValueView::Nil,
        }),
{
    match t {
        Transient::Other => copy_value(v),
        _ => match collection {
            Some(c) => c,
            None => Value::Nil,
        },
    }
}

/// Gives an atom a value, and yields it.
pub fn rt_atom_reset(cell: &mut Value, v: &Value) -> (r: Value)
    ensures
        final(cell)@ == v@,
        r@ == v@,
{
    *cell = copy_value(v);
    copy_value(v)
}

/// The arguments of the function that an atom is changed by: its value, and those in hand.
pub fn swap_args(current: &Value, extra: &Vec<Value>) -> (r: Vec<Value>)
    ensures
        value::views(r@) == seq![current@] + value::views(extra@),
{
    let mut args: Vec<Value> = Vec::new();
    let first = copy_value(current);
    proof {
        value::views_push(args@, first);
    }
    args.push(first);
    add_all(&mut args, extra);
    assert(value::views(args@) =~= seq![current@] + value::views(extra@));
    args
}

/// What an attempt to change an atom came to.
#[derive(Debug)]
pub enum Swapped {
    Done(Value),
    /// Another change came in between: the function is called again.
    Again,
}

/// The end of an attempt to change an atom, of which `seen` was handed to the function: its result
/// is stored where the atom still holds an equal value, and otherwise the atom stays.  Where the
/// function threw or failed the atom stays, and the change comes to nil.
pub fn rt_atom_swap<F: Fn(&Value, &Value) -> bool>(cell: &mut Value, seen: &Value, result: Invoked, eq: &F) -> (r: Swapped)
    requires
        equality::is_equality(*eq),
    ensures
        match result {
            Invoked::Value(v) => if equality::says(*eq, old(cell)@, seen@) {
                final(cell)@ == v@ && r is Done && r->Done_0@ == v@
            } else {
                *final(cell) == *old(cell) && r is Again
            },
            _ => *final(cell) == *old(cell) && r is Done && r->Done_0@ == ValueView::Nil,
        },
{
    match result {
        Invoked::Value(v) => {
            if equal(eq, cell, seen) {
                *cell = copy_value(&v);
                Swapped::Done(v)
            } else {
                Swapped::Again
            }
        },
        _ => Swapped::Done(Value::Nil),
    }
}

/// Where an assignment to a variable goes.
#[derive(Clone, Copy, Debug, PartialEq, Eq, Structural)]
pub enum Assigned {
    /// To the binding of this thread.
    Local,
    /// To the variable itself.
    Root,
    Nowhere,
}

/// Where an assignment goes: to the binding of this thread where there is one, else to the variable
/// itself, and nowhere where there is no variable.
pub fn rt_set_bang(is_var: bool, is_bound_here: bool) -> (r: Assigned)
    ensures
        r == (if !is_var {
            Assigned::Nowhere
        } else if is_bound_here {
            Assigned::Local
        } else {
            Assigned::Root
        }),
{
    if !is_var {
        Assigned::Nowhere
    } else if is_bound_here {
        Assigned::Local
    } else {
        Assigned::Root
    }
}

/// The variables and values of a list of bindings; what is no variable has no number.
pub open spec fn bindings_view(pairs: Seq<(Option<u64>, Value)>) -> Seq<(Option<u64>, ValueView)> {
    pairs.map_values(|p: (Option<u64>, Value)| (p.0, p.1@))
}

/// What the first `n` bindings give a variable: the last of them counts.
pub open spec fn bound(pairs: Seq<(Option<u64>, ValueView)>, var: u64, n: int) -> Option<ValueView>
    decreases n,
{
    if n <= 0 || n > pairs.len() {
        None
    } else if pairs[n - 1].0 == Some(var) {
        Some(pairs[n - 1].1)
    } else {
        bound(pairs, var, n - 1)
    }
}

/// The frame holds each variable at most once.
pub open spec fn is_frame(frame: Seq<(u64, Value)>) -> bool {
    forall|i: int, j: int| 0 <= i < j < frame.len() ==> (#[trigger] frame[i]).0 != (#[trigger] frame[j]).0
}

/// The frame gives the variable the value.
pub open spec fn gives(frame: Seq<(u64, Value)>, var: u64, v: ValueView) -> bool {
    exists|i: int| 0 <= i < frame.len() && (#[trigger] frame[i]).0 == var && frame[i].1@ == v
}

fn frame_at(frame: &Vec<(u64, Value)>, var: u64) -> (r: Option<usize>)
    ensures
        match r {
            Some(i) => i < frame@.len() && frame@[i as int].0 == var,
            None => forall|i: int| 0 <= i < frame@.len() ==> (#[trigger] frame@[i]).0 != var,
        },
{
    let mut i: usize = 0;
    while i < frame.len()
        invariant
            i <= frame@.len(),
            forall|k: int| 0 <= k < i ==> (#[trigger] frame@[k]).0 != var,
        decreases frame@.len() - i,
    {
        if frame[i].0 == var {
            return Some(i);
        }
        i += 1;
    }
    None
}

/// The frame agrees with the first `n` bindings.
spec fn frame_agrees(frame: Seq<(u64, Value)>, pairs: Seq<(Option<u64>, ValueView)>, n: int) -> bool {
    forall|var: u64, v: ValueView| #[trigger] gives(frame, var, v) <==> bound(pairs, var, n) == Some(v)
}

proof fn frame_step(old_frame: Seq<(u64, Value)>, frame: Seq<(u64, Value)>, pairs: Seq<(Option<u64>, ValueView)>, n: int, var: u64, v: Value, at: int)
    requires
        0 <= n < pairs.len(),
        pairs[n] == (Some(var), v@),
        is_frame(old_frame),
        frame_agrees(old_frame, pairs, n),
        0 <= at <= old_frame.len(),
        at < old_frame.len() ==> old_frame[at].0 == var,
        at == old_frame.len() ==> forall|i: int| 0 <= i < old_frame.len() ==> (#[trigger] old_frame[i]).0 != var,
        frame == (if at < old_frame.len() { old_frame.update(at, (var, v)) } else { old_frame.push((var, v)) }),
    ensures
        is_frame(frame),
        frame_agrees(frame, pairs, n + 1),
{
    assert forall|x: u64, w: ValueView| #[trigger] gives(frame, x, w) <==> bound(pairs, x, n + 1) == Some(w) by {
        assert(frame[at] == (var, v));
        if x == var {
            if gives(frame, x, w) {
                let i = choose|i: int| 0 <= i < frame.len() && (#[trigger] frame[i]).0 == x && frame[i].1@ == w;
                if i != at {
                    assert(old_frame[i].0 == x);
                }
            }
        } else {
            if gives(old_frame, x, w) {
                let i = choose|i: int| 0 <= i < old_frame.len() && (#[trigger] old_frame[i]).0 == x && old_frame[i].1@ == w;
                assert(frame[i] == old_frame[i]);
            }
            if gives(frame, x, w) {
                let i = choose|i: int| 0 <= i < frame.len() && (#[trigger] frame[i]).0 == x && frame[i].1@ == w;
                assert(old_frame[i] == frame[i]);
            }
            assert(gives(old_frame, x, w) <==> bound(pairs, x, n) == Some(w));
        }
    }
}

/// The frame of a list of bindings: it gives each variable what its last binding gives it, and no
/// other.
pub fn rt_with_bindings(pairs: &Vec<(Option<u64>, Value)>) -> (r: Vec<(u64, Value)>)
    ensures
        is_frame(r@),
        forall|var: u64, v: ValueView| #[trigger] gives(r@, var, v) <==> bound(bindings_view(pairs@), var, pairs@.len() as int) == Some(v),
{
    let ghost pv = bindings_view(pairs@);
    let mut frame: Vec<(u64, Value)> = Vec::new();
    let mut i: usize = 0;
    while i < pairs.len()
        invariant
            i <= pairs@.len(),
            pv == bindings_view(pairs@),
            pv.len() == pairs@.len(),
            is_frame(frame@),
            frame_agrees(frame@, pv, i as int),
        decreases pairs@.len() - i,
    {
        assert(pv[i as int] == (pairs@[i as int].0, pairs@[i as int].1@));
        let ghost before = frame@;
        match pairs[i].0 {
            Some(var) => {
                let v = copy_value(&pairs[i].1);
                let ghost gv = v;
                match frame_at(&frame, var) {
                    Some(k) => {
                        frame.set(k, (var, v));
                        proof {
                            frame_step(before, frame@, pv, i as int, var, gv, k as int);
                        }
                    },
                    None => {
                        frame.push((var, v));
                        proof {
                            frame_step(before, frame@, pv, i as int, var, gv, before.len() as int);
                        }
                    },
                }
            },
            None => {
                assert forall|x: u64, w: ValueView| #[trigger] gives(frame@, x, w) <==> bound(pv, x, i + 1) == Some(w) by {
                    assert(gives(frame@, x, w) <==> bound(pv, x, i as int) == Some(w));
                }
            },
        }
        i += 1;
    }
    frame
}

/// A collection after a change of its transient.
pub open spec fn changed<F: Fn(&Value, &Value) -> bool>(eq: F, coll: ValueView, c: ChangeView) -> ValueView {
    match (coll, c) {
        (ValueView::Vector(vs), ChangeView::Append(v)) => ValueView::Vector(vs.push(v)),
        (ValueView::Vector(vs), ChangeView::At(i, v)) => if i < vs.len() { ValueView::Vector(vs.update(i as int, v)) } else { coll },
        (ValueView::HashSet(vs), ChangeView::Member(v)) => ValueView::HashSet(collections::with_value(eq, vs, v)),
        (ValueView::Dict(ps), ChangeView::Entry(k, v)) => ValueView::Dict(collections::with_entry(eq, ps, k, v)),
        _ => coll,
    }
}

/// Adding to a transient makes of its collection what adding to the collection itself gives; a map
/// takes a pair as an entry.
pub proof fn adding_in_place_is_adding<F: Fn(&Value, &Value) -> bool>(eq: F, coll: ValueView, hashed: bool, v: ValueView)
    ensures
        coll is Vector || coll is HashSet ==> changed(eq, coll, change_of_conj(transient_of(coll, hashed), v)) == sequences::conj(eq, coll, v, 0),
        coll is Dict && hashed && v is Vector && v->Vector_0.len() == 2 ==> changed(eq, coll, change_of_conj(transient_of(coll, hashed), v)) == collections::assoc(eq, coll, v->Vector_0[0], v->Vector_0[1]),
        coll is Dict && !(v is Vector && v->Vector_0.len() == 2) ==> change_of_conj(transient_of(coll, hashed), v) is Nothing,
{
}

/// Setting a key of a transient makes of its collection what setting it in the collection itself
/// gives; of a vector, an element that is there is replaced, and the others stay.
pub proof fn setting_in_place_is_setting<F: Fn(&Value, &Value) -> bool>(eq: F, coll: ValueView, hashed: bool, k: ValueView, v: ValueView)
    ensures
        coll is Dict && hashed ==> changed(eq, coll, change_of_assoc(transient_of(coll, hashed), k, v)) == collections::assoc(eq, coll, k, v),
        coll is Vector && k is Long && 0 <= k->Long_0 < coll->Vector_0.len() ==> {
            let after = changed(eq, coll, change_of_assoc(transient_of(coll, hashed), k, v));
            &&& after is Vector
            &&& after->Vector_0.len() == coll->Vector_0.len()
            &&& after->Vector_0[k->Long_0 as int] == v
            &&& forall|i: int| 0 <= i < coll->Vector_0.len() && i != k->Long_0 ==> #[trigger] after->Vector_0[i] == coll->Vector_0[i]
        },
        coll is Vector && !(k is Long) ==> change_of_assoc(transient_of(coll, hashed), k, v) is Nothing,
        coll is HashSet ==> change_of_assoc(transient_of(coll, hashed), k, v) is Nothing,
{
}

/// A value is changed in place exactly where it is a vector, a hashed set or a hashed map: any other
/// takes no change.
pub proof fn other_values_take_no_change(coll: ValueView, hashed: bool, k: ValueView, v: ValueView)
    ensures
        transient_of(coll, hashed) is Other <==> !(coll is Vector || coll is HashSet || (coll is Dict && hashed)),
        transient_of(coll, hashed) is Other ==> change_of_conj(transient_of(coll, hashed), v) is Nothing && change_of_assoc(transient_of(coll, hashed), k, v) is Nothing,
{
}

/// A variable is bound to a value exactly where a binding gives it that and no later one is of the
/// same variable.
pub proof fn the_last_binding_counts(pairs: Seq<(Option<u64>, ValueView)>, var: u64, v: ValueView, n: int)
    requires
        0 <= n <= pairs.len(),
    ensures
        bound(pairs, var, n) == Some(v) <==> exists|i: int| 0 <= i < n && #[trigger] pairs[i] == (Some(var), v) && (forall|j: int| i < j < n ==> (#[trigger] pairs[j]).0 != Some(var)),
    decreases n,
{
    if n > 0 {
        the_last_binding_counts(pairs, var, v, n - 1);
        if pairs[n - 1].0 == Some(var) {
            if bound(pairs, var, n) == Some(v) {
                assert(pairs[n - 1] == (Some(var), v));
            }
        } else if bound(pairs, var, n - 1) == Some(v) {
            let i = choose|i: int| 0 <= i < n - 1 && #[trigger] pairs[i] == (Some(var), v) && (forall|j: int| i < j < n - 1 ==> (#[trigger] pairs[j]).0 != Some(var));
            assert(pairs[i] == (Some(var), v));
        }
    }
}

} // verus!
