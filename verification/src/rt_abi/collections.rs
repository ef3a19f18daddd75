//! Collections.
use crate::rt_abi::equality;
use crate::rt_abi::equality::equal;
use crate::value;
use crate::value::{copy_pairs, copy_value, Value, ValueView};
use vstd::prelude::*;
use vstd::string::*;

verus! {

/// Entries of a map.
pub type Entries = Seq<(ValueView, ValueView)>;

/// The position, from `i` on, of the entry of a key; the number of entries where there is none.
pub open spec fn key_at<F: Fn(&Value, &Value) -> bool>(eq: F, ps: Entries, key: ValueView, i: int) -> int
    decreases ps.len() - i,
{
    if i < 0 || i >= ps.len() {
        ps.len() as int
    } else if equality::says(eq, ps[i].0, key) {
        i
    } else {
        key_at(eq, ps, key, i + 1)
    }
}

/// The position, from `i` on, of a value; the number of values where it is not among them.
pub open spec fn value_at<F: Fn(&Value, &Value) -> bool>(eq: F, vs: Seq<ValueView>, v: ValueView, i: int) -> int
    decreases vs.len() - i,
{
    if i < 0 || i >= vs.len() {
        vs.len() as int
    } else if equality::says(eq, vs[i], v) {
        i
    } else {
        value_at(eq, vs, v, i + 1)
    }
}

/// What a map holds under a key, and nil where it holds nothing.
pub open spec fn entry<F: Fn(&Value, &Value) -> bool>(eq: F, ps: Entries, key: ValueView) -> ValueView {
    let k = key_at(eq, ps, key, 0);
    if 0 <= k < ps.len() { ps[k].1 } else { ValueView::Nil }
}

/// A map with one entry set: it takes the place of what is under the key, or comes behind the
/// others.
pub open spec fn with_entry<F: Fn(&Value, &Value) -> bool>(eq: F, ps: Entries, key: ValueView, v: ValueView) -> Entries {
    let k = key_at(eq, ps, key, 0);
    if 0 <= k < ps.len() { ps.update(k, (ps[k].0, v)) } else { ps.push((key, v)) }
}

/// A map without the entry of a key.
pub open spec fn without_entry<F: Fn(&Value, &Value) -> bool>(eq: F, ps: Entries, key: ValueView) -> Entries {
    let k = key_at(eq, ps, key, 0);
    if 0 <= k < ps.len() { ps.remove(k) } else { ps }
}

/// A set with one more value, where it is new.
pub open spec fn with_value<F: Fn(&Value, &Value) -> bool>(eq: F, vs: Seq<ValueView>, v: ValueView) -> Seq<ValueView> {
    if value_at(eq, vs, v, 0) < vs.len() { vs } else { vs.push(v) }
}

/// A set without a value.
pub open spec fn without_value<F: Fn(&Value, &Value) -> bool>(eq: F, vs: Seq<ValueView>, v: ValueView) -> Seq<ValueView> {
    let k = value_at(eq, vs, v, 0);
    if 0 <= k < vs.len() { vs.remove(k) } else { vs }
}

/// A map with the first `n` of more entries set, one after the other.
pub open spec fn with_entries<F: Fn(&Value, &Value) -> bool>(eq: F, ps: Entries, more: Entries, n: int) -> Entries
    decreases n,
{
    if n <= 0 || n > more.len() { ps } else { with_entry(eq, with_entries(eq, ps, more, n - 1), more[n - 1].0, more[n - 1].1) }
}

/// A set with the first `n` of more values, one after the other.
pub open spec fn with_values<F: Fn(&Value, &Value) -> bool>(eq: F, vs: Seq<ValueView>, more: Seq<ValueView>, n: int) -> Seq<ValueView>
    decreases n,
{
    if n <= 0 || n > more.len() { vs } else { with_value(eq, with_values(eq, vs, more, n - 1), more[n - 1]) }
}

pub(crate) fn find_key<F: Fn(&Value, &Value) -> bool>(ps: &Vec<(Value, Value)>, key: &Value, eq: &F) -> (r: usize)
    requires
        equality::is_equality(*eq),
    ensures
        r == key_at(*eq, value::pair_views(ps@), key@, 0),
        r <= ps@.len(),
{
    let ghost pv = value::pair_views(ps@);
    proof {
        value::pair_views_at(ps@);
    }
    let mut i: usize = 0;
    while i < ps.len()
        invariant
            i <= ps@.len(),
            equality::is_equality(*eq),
            pv == value::pair_views(ps@),
            pv.len() == ps@.len(),
            forall|k: int| 0 <= k < pv.len() ==> #[trigger] pv[k] == (value::view(ps@[k].0), value::view(ps@[k].1)),
            key_at(*eq, pv, key@, 0) == key_at(*eq, pv, key@, i as int),
        decreases ps@.len() - i,
    {
        assert(pv[i as int] == (value::view(ps@[i as int].0), value::view(ps@[i as int].1)));
        if equal(eq, &ps[i].0, key) {
            return i;
        }
        i += 1;
    }
    i
}

pub(crate) fn find_value<F: Fn(&Value, &Value) -> bool>(vs: &Vec<Value>, v: &Value, eq: &F) -> (r: usize)
    requires
        equality::is_equality(*eq),
    ensures
        r == value_at(*eq, value::views(vs@), v@, 0),
        r <= vs@.len(),
{
    let ghost vv = value::views(vs@);
    proof {
        value::views_at(vs@);
    }
    let mut i: usize = 0;
    while i < vs.len()
        invariant
            i <= vs@.len(),
            equality::is_equality(*eq),
            vv == value::views(vs@),
            vv.len() == vs@.len(),
            forall|k: int| 0 <= k < vv.len() ==> #[trigger] vv[k] == value::view(vs@[k]),
            value_at(*eq, vv, v@, 0) == value_at(*eq, vv, v@, i as int),
        decreases vs@.len() - i,
    {
        assert(vv[i as int] == value::view(vs@[i as int]));
        if equal(eq, &vs[i], v) {
            return i;
        }
        i += 1;
    }
    i
}

pub(crate) fn look_up<F: Fn(&Value, &Value) -> bool>(ps: &Vec<(Value, Value)>, key: &Value, eq: &F) -> (r: Value)
    requires
        equality::is_equality(*eq),
    ensures
        r@ == entry(*eq, value::pair_views(ps@), key@),
{
    let k: usize = find_key(ps, key, eq);
    proof {
        value::pair_views_at(ps@);
    }
    if k < ps.len() { copy_value(&ps[k].1) } else { Value::Nil }
}

proof fn pair_views_update(ps: Seq<(Value, Value)>, i: int, p: (Value, Value))
    requires
        0 <= i < ps.len(),
    ensures
        value::pair_views(ps.update(i, p)) == value::pair_views(ps).update(i, (value::view(p.0), value::view(p.1))),
{
    value::pair_views_at(ps);
    value::pair_views_at(ps.update(i, p));
    assert(value::pair_views(ps.update(i, p)) =~= value::pair_views(ps).update(i, (value::view(p.0), value::view(p.1))));
}

pub(crate) fn set_entry<F: Fn(&Value, &Value) -> bool>(ps: &mut Vec<(Value, Value)>, key: Value, v: Value, eq: &F)
    requires
        equality::is_equality(*eq),
    ensures
        value::pair_views(final(ps)@) == with_entry(*eq, value::pair_views(old(ps)@), key@, v@),
{
    let k: usize = find_key(ps, &key, eq);
    proof {
        value::pair_views_at(ps@);
    }
    if k < ps.len() {
        let own = copy_value(&ps[k].0);
        proof {
            pair_views_update(ps@, k as int, (own, v));
        }
        ps.set(k, (own, v));
    } else {
        proof {
            value::pair_views_push(ps@, (key, v));
        }
        ps.push((key, v));
    }
}

pub(crate) fn add_value<F: Fn(&Value, &Value) -> bool>(vs: &mut Vec<Value>, v: Value, eq: &F)
    requires
        equality::is_equality(*eq),
    ensures
        value::views(final(vs)@) == with_value(*eq, value::views(old(vs)@), v@),
{
    let k: usize = find_value(vs, &v, eq);
    proof {
        value::views_at(vs@);
        value::views_push(vs@, v);
    }
    if k >= vs.len() {
        vs.push(v);
    }
}

/// What a collection holds under a key: a map or a record by equality, a vector by position.
pub open spec fn get<F: Fn(&Value, &Value) -> bool>(eq: F, coll: ValueView, key: ValueView) -> ValueView {
    match coll {
        ValueView::Dict(ps) => entry(eq, ps, key),
        ValueView::Record(_, ps) => entry(eq, ps, key),
        ValueView::Vector(vs) => match key {
            ValueView::Long(i) => if 0 <= i < vs.len() { vs[i as int] } else { ValueView::Nil },
            _ => ValueView::Nil,
        },
        _ => ValueView::Nil,
    }
}

pub(crate) fn at(vs: &Vec<Value>, i: i64) -> (r: Value)
    ensures
        r@ == (if 0 <= i < value::views(vs@).len() { value::views(vs@)[i as int] } else { ValueView::Nil }),
{
    proof {
        value::views_at(vs@);
    }
    if i >= 0 && (i as u64) < (vs.len() as u64) { copy_value(&vs[i as usize]) } else { Value::Nil }
}

/// What a collection holds under a key, and nil where it holds nothing.
pub fn rt_get<F: Fn(&Value, &Value) -> bool>(coll: &Value, key: &Value, eq: &F) -> (r: Value)
    requires
        equality::is_equality(*eq),
    ensures
        r@ == get(*eq, coll@, key@),
{
    match coll {
        Value::Dict(ps) => look_up(ps, key, eq),
        Value::Record(_, ps) => look_up(ps, key, eq),
        Value::Vector(vs) => match key {
            Value::Long(i) => at(vs, *i),
            _ => Value::Nil,
        },
        _ => Value::Nil,
    }
}

/// A map or a record with one entry set; nil for anything else.
pub open spec fn assoc<F: Fn(&Value, &Value) -> bool>(eq: F, m: ValueView, k: ValueView, v: ValueView) -> ValueView {
    match m {
        ValueView::Dict(ps) => ValueView::Dict(with_entry(eq, ps, k, v)),
        ValueView::Record(t, ps) => ValueView::Record(t, with_entry(eq, ps, k, v)),
        _ => ValueView::Nil,
    }
}

/// A map or a record with one entry set.
pub fn rt_assoc<F: Fn(&Value, &Value) -> bool>(m: &Value, k: &Value, v: &Value, eq: &F) -> (r: Value)
    requires
        equality::is_equality(*eq),
    ensures
        r@ == assoc(*eq, m@, k@, v@),
{
    match m {
        Value::Dict(ps) => {
            let mut out = copy_pairs(ps);
            set_entry(&mut out, copy_value(k), copy_value(v), eq);
            Value::Dict(out)
        },
        Value::Record(t, ps) => {
            let mut out = copy_pairs(ps);
            set_entry(&mut out, copy_value(k), copy_value(v), eq);
            Value::Record(t.clone(), out)
        },
        _ => Value::Nil,
    }
}

proof fn key_is_found<F: Fn(&Value, &Value) -> bool>(eq: F, ps: Entries, key: ValueView, i: int)
    requires
        0 <= i <= ps.len(),
    ensures
        i <= key_at(eq, ps, key, i) <= ps.len(),
        key_at(eq, ps, key, i) < ps.len() ==> equality::says(eq, ps[key_at(eq, ps, key, i)].0, key),
        forall|k: int| i <= k < key_at(eq, ps, key, i) ==> !equality::says(eq, (#[trigger] ps[k]).0, key),
    decreases ps.len() - i,
{
    if i < ps.len() && !equality::says(eq, ps[i].0, key) {
        key_is_found(eq, ps, key, i + 1);
    }
}

proof fn first_is_found<F: Fn(&Value, &Value) -> bool>(eq: F, ps: Entries, key: ValueView, i: int, at: int)
    requires
        0 <= i <= at < ps.len(),
        equality::says(eq, ps[at].0, key),
        forall|k: int| i <= k < at ==> !equality::says(eq, (#[trigger] ps[k]).0, key),
    ensures
        key_at(eq, ps, key, i) == at,
    decreases at - i,
{
    if i < at {
        first_is_found(eq, ps, key, i + 1, at);
    }
}

/// What is set under a key is what the key holds then.
pub proof fn a_set_entry_is_found<F: Fn(&Value, &Value) -> bool>(eq: F, ps: Entries, key: ValueView, v: ValueView)
    requires
        equality::is_equivalence(eq),
    ensures
        entry(eq, with_entry(eq, ps, key, v), key) == v,
{
    let k = key_at(eq, ps, key, 0);
    let after = with_entry(eq, ps, key, v);
    key_is_found(eq, ps, key, 0);
    if k < ps.len() {
        assert forall|j: int| 0 <= j < k implies !equality::says(eq, (#[trigger] after[j]).0, key) by {
            assert(after[j] == ps[j]);
        }
        first_is_found(eq, after, key, 0, k);
    } else {
        assert(equality::says(eq, key, key));
        assert forall|j: int| 0 <= j < ps.len() implies !equality::says(eq, (#[trigger] after[j]).0, key) by {
            assert(after[j] == ps[j]);
        }
        first_is_found(eq, after, key, 0, ps.len() as int);
    }
}

/// Setting an entry leaves what other keys hold.
pub proof fn other_entries_stay<F: Fn(&Value, &Value) -> bool>(eq: F, ps: Entries, key: ValueView, v: ValueView, other: ValueView)
    requires
        equality::is_equivalence(eq),
        !equality::says(eq, key, other),
    ensures
        entry(eq, with_entry(eq, ps, key, v), other) == entry(eq, ps, other),
{
    let k = key_at(eq, ps, key, 0);
    let o = key_at(eq, ps, other, 0);
    let after = with_entry(eq, ps, key, v);
    key_is_found(eq, ps, key, 0);
    key_is_found(eq, ps, other, 0);
    key_is_found(eq, after, other, 0);
    if k < ps.len() {
        let key_k = ps[k].0;
        if equality::says(eq, key_k, other) {
            assert(equality::says(eq, key, key_k));
            assert(equality::says(eq, key, other));
        }
    }
    if o < ps.len() {
        assert(o != k);
        assert(after[o] == ps[o]);
        assert forall|j: int| 0 <= j < o implies !equality::says(eq, (#[trigger] after[j]).0, other) by {
            assert(after[j].0 == ps[j].0);
        }
        first_is_found(eq, after, other, 0, o);
    } else {
        let f = key_at(eq, after, other, 0);
        if f < after.len() {
            if f < ps.len() {
                assert(after[f].0 == ps[f].0);
            } else {
                assert(after[f].0 == key);
            }
            assert(false);
        }
    }
}

} // verus!
