//! What is in a collection, and what adding and taking away does to that.
use crate::rt_abi::building;
use crate::rt_abi::collections;
use crate::rt_abi::collections::Entries;
use crate::rt_abi::equality;
use crate::rt_abi::sequences;
use crate::value::{Value, ValueView};
use vstd::prelude::*;

verus! {

/// One of the values equals `x`.
pub open spec fn is_among<F: Fn(&Value, &Value) -> bool>(eq: F, vs: Seq<ValueView>, x: ValueView) -> bool {
    exists|i: int| 0 <= i < vs.len() && equality::says(eq, #[trigger] vs[i], x)
}

/// No two of the values are equal.
pub open spec fn is_apart<F: Fn(&Value, &Value) -> bool>(eq: F, vs: Seq<ValueView>) -> bool {
    forall|i: int, j: int| 0 <= i < vs.len() && 0 <= j < vs.len() && i != j ==> !equality::says(eq, #[trigger] vs[i], #[trigger] vs[j])
}

/// The keys of a map, in order.
pub open spec fn keys(ps: Entries) -> Seq<ValueView> {
    Seq::new(ps.len(), |i: int| ps[i].0)
}

/// What a set holds.
pub open spec fn members(s: ValueView) -> Seq<ValueView> {
    match s {
        ValueView::HashSet(vs) => vs,
        ValueView::SortedSet(vs) => vs,
        _ => Seq::empty(),
    }
}

/// A value is a set.
pub open spec fn is_set(s: ValueView) -> bool {
    s is HashSet || s is SortedSet
}

/// The entries of a map or of a record.
pub open spec fn entries(m: ValueView) -> Entries {
    match m {
        ValueView::Dict(ps) => ps,
        ValueView::Record(_, ps) => ps,
        _ => Seq::empty(),
    }
}

proof fn search<F: Fn(&Value, &Value) -> bool>(eq: F, vs: Seq<ValueView>, v: ValueView, i: int)
    requires
        0 <= i <= vs.len(),
    ensures
        i <= collections::value_at(eq, vs, v, i) <= vs.len(),
        collections::value_at(eq, vs, v, i) < vs.len() ==> equality::says(eq, vs[collections::value_at(eq, vs, v, i)], v),
        forall|k: int| i <= k < collections::value_at(eq, vs, v, i) ==> !equality::says(eq, #[trigger] vs[k], v),
    decreases vs.len() - i,
{
    if i < vs.len() && !equality::says(eq, vs[i], v) {
        search(eq, vs, v, i + 1);
    }
}

proof fn key_search<F: Fn(&Value, &Value) -> bool>(eq: F, ps: Entries, key: ValueView, i: int)
    requires
        0 <= i <= ps.len(),
    ensures
        i <= collections::key_at(eq, ps, key, i) <= ps.len(),
        collections::key_at(eq, ps, key, i) < ps.len() ==> equality::says(eq, ps[collections::key_at(eq, ps, key, i)].0, key),
        forall|k: int| i <= k < collections::key_at(eq, ps, key, i) ==> !equality::says(eq, (#[trigger] ps[k]).0, key),
    decreases ps.len() - i,
{
    if i < ps.len() && !equality::says(eq, ps[i].0, key) {
        key_search(eq, ps, key, i + 1);
    }
}

/// A set contains exactly what equals one of its members, a map what equals one of its keys, and a
/// vector its positions.
pub proof fn containing_is_membership<F: Fn(&Value, &Value) -> bool>(eq: F, coll: ValueView, x: ValueView)
    ensures
        is_set(coll) ==> (sequences::contains(eq, coll, x) <==> is_among(eq, members(coll), x)),
        coll is Dict ==> (sequences::contains(eq, coll, x) <==> is_among(eq, keys(entries(coll)), x)),
        coll is Vector ==> (sequences::contains(eq, coll, x) <==> x is Long && 0 <= x->Long_0 < coll->Vector_0.len()),
        !is_set(coll) && !(coll is Dict) && !(coll is Vector) ==> !sequences::contains(eq, coll, x),
{
    match coll {
        ValueView::HashSet(vs) => search(eq, vs, x, 0),
        ValueView::SortedSet(vs) => search(eq, vs, x, 0),
        ValueView::Dict(ps) => {
            key_search(eq, ps, x, 0);
            let k = collections::key_at(eq, ps, x, 0);
            if k < ps.len() {
                assert(keys(ps)[k] == ps[k].0);
            } else if is_among(eq, keys(ps), x) {
                let i = choose|i: int| 0 <= i < keys(ps).len() && equality::says(eq, #[trigger] keys(ps)[i], x);
                assert(keys(ps)[i] == ps[i].0);
            }
        },
        _ => {},
    }
}

/// After a value is added, a set contains it, and any other exactly where it did; a set stays a set
/// of its kind, and grows by one exactly where the value is new.
pub proof fn an_added_value_is_contained<F: Fn(&Value, &Value) -> bool>(eq: F, s: ValueView, v: ValueView, at: usize, other: ValueView)
    requires
        equality::is_equivalence(eq),
        is_set(s),
    ensures
        sequences::contains(eq, sequences::conj(eq, s, v, at), v),
        !equality::says(eq, v, other) ==> (sequences::contains(eq, sequences::conj(eq, s, v, at), other) <==> sequences::contains(eq, s, other)),
        s is HashSet <==> sequences::conj(eq, s, v, at) is HashSet,
        s is SortedSet <==> sequences::conj(eq, s, v, at) is SortedSet,
        sequences::contains(eq, s, v) ==> sequences::conj(eq, s, v, at) == s,
        !sequences::contains(eq, s, v) ==> members(sequences::conj(eq, s, v, at)).to_multiset() == members(s).to_multiset().insert(v),
        is_apart(eq, members(s)) ==> is_apart(eq, members(sequences::conj(eq, s, v, at))),
{
    broadcast use vstd::seq_lib::group_to_multiset_ensures;
    let t = sequences::conj(eq, s, v, at);
    let a = members(s);
    let b = members(t);
    let p: int = if s is HashSet { a.len() as int } else if at < a.len() { at as int } else { a.len() as int };
    containing_is_membership(eq, s, v);
    containing_is_membership(eq, s, other);
    containing_is_membership(eq, t, v);
    containing_is_membership(eq, t, other);
    if !is_among(eq, a, v) {
        assert(b =~= a.insert(p, v));
        assert(b[p] == v && equality::says(eq, b[p], v));
        if is_among(eq, a, other) {
            let i = choose|i: int| 0 <= i < a.len() && equality::says(eq, #[trigger] a[i], other);
            let k: int = if i < p { i } else { i + 1 };
            assert(b[k] == a[i]);
        }
        if is_among(eq, b, other) && !equality::says(eq, v, other) {
            let k = choose|k: int| 0 <= k < b.len() && equality::says(eq, #[trigger] b[k], other);
            let i: int = if k < p { k } else { k - 1 };
            assert(k != p);
            assert(b[k] == a[i]);
        }
        if is_apart(eq, a) {
            assert forall|i: int, j: int| 0 <= i < b.len() && 0 <= j < b.len() && i != j implies !equality::says(eq, #[trigger] b[i], #[trigger] b[j]) by {
                let m: int = if i < p { i } else { i - 1 };
                let n: int = if j < p { j } else { j - 1 };
                if i != p {
                    assert(b[i] == a[m]);
                }
                if j != p {
                    assert(b[j] == a[n]);
                }
                if equality::says(eq, b[i], b[j]) {
                    assert(equality::says(eq, b[j], b[i]));
                    if i == p {
                        assert(is_among(eq, a, v));
                    } else if j == p {
                        assert(is_among(eq, a, v));
                    }
                }
            }
        }
        vstd::seq_lib::to_multiset_insert(a, p, v);
    } else {
        assert(b =~= a);
    }
}

/// A vector with one more value has it behind the others, and a list in front of them.
pub proof fn an_added_value_has_its_place<F: Fn(&Value, &Value) -> bool>(eq: F, coll: ValueView, v: ValueView, at: usize, i: i64)
    requires
        coll is Vector || coll is List,
        sequences::count(coll) < i64::MAX,
    ensures
        sequences::count(sequences::conj(eq, coll, v, at)) == sequences::count(coll) + 1,
        coll is Vector ==> sequences::conj(eq, coll, v, at) is Vector,
        coll is List ==> sequences::conj(eq, coll, v, at) is List,
        coll is Vector ==> sequences::nth(sequences::conj(eq, coll, v, at), ValueView::Long(sequences::count(coll) as i64)) == v,
        coll is Vector && 0 <= i < sequences::count(coll) ==> sequences::nth(sequences::conj(eq, coll, v, at), ValueView::Long(i)) == sequences::nth(coll, ValueView::Long(i)),
        coll is List ==> sequences::first(sequences::conj(eq, coll, v, at)) == v,
        coll is List ==> sequences::rest(sequences::conj(eq, coll, v, at)) == coll,
{
    if coll is List {
        assert((seq![v] + coll->List_0).skip(1) =~= coll->List_0);
    }
}

/// After a value is taken away, a set does not contain it, and contains any other exactly where it did.
pub proof fn a_value_taken_away_is_gone<F: Fn(&Value, &Value) -> bool>(eq: F, s: ValueView, v: ValueView, other: ValueView)
    requires
        equality::is_equivalence(eq),
        is_set(s),
        is_apart(eq, members(s)),
    ensures
        !sequences::contains(eq, sequences::disj(eq, s, v), v),
        !equality::says(eq, v, other) ==> (sequences::contains(eq, sequences::disj(eq, s, v), other) <==> sequences::contains(eq, s, other)),
        s is HashSet <==> sequences::disj(eq, s, v) is HashSet,
        s is SortedSet <==> sequences::disj(eq, s, v) is SortedSet,
        !sequences::contains(eq, s, v) ==> sequences::disj(eq, s, v) == s,
        is_apart(eq, members(sequences::disj(eq, s, v))),
{
    let t = sequences::disj(eq, s, v);
    let a = members(s);
    let b = members(t);
    containing_is_membership(eq, s, v);
    containing_is_membership(eq, s, other);
    containing_is_membership(eq, t, v);
    containing_is_membership(eq, t, other);
    search(eq, a, v, 0);
    let p = collections::value_at(eq, a, v, 0);
    if p < a.len() {
        assert(b =~= a.remove(p));
        assert(equality::says(eq, a[p], v));
        assert forall|k: int| 0 <= k < b.len() implies #[trigger] b[k] == a[if k < p { k } else { k + 1 }] by {}
        if is_among(eq, b, v) {
            let k = choose|k: int| 0 <= k < b.len() && equality::says(eq, #[trigger] b[k], v);
            let i: int = if k < p { k } else { k + 1 };
            assert(b[k] == a[i]);
            assert(equality::says(eq, v, a[p]));
            assert(equality::says(eq, a[i], a[p]));
        }
        if is_among(eq, a, other) && !equality::says(eq, v, other) {
            let i = choose|i: int| 0 <= i < a.len() && equality::says(eq, #[trigger] a[i], other);
            if i == p {
                assert(equality::says(eq, v, a[p]));
            }
            let k: int = if i < p { i } else { i - 1 };
            assert(b[k] == a[i]);
        }
        assert forall|i: int, j: int| 0 <= i < b.len() && 0 <= j < b.len() && i != j implies !equality::says(eq, #[trigger] b[i], #[trigger] b[j]) by {
            let m: int = if i < p { i } else { i + 1 };
            let n: int = if j < p { j } else { j + 1 };
            assert(b[i] == a[m] && b[j] == a[n]);
        }
    } else {
        assert(b =~= a);
    }
}

/// What is set under a key of a map or a record is what it holds there then, and it holds what it
/// did under any other; a map has the key then, and any other where it did.
pub proof fn what_is_set_is_read<F: Fn(&Value, &Value) -> bool>(eq: F, m: ValueView, k: ValueView, v: ValueView, other: ValueView)
    requires
        equality::is_equivalence(eq),
        m is Dict || m is Record,
    ensures
        collections::get(eq, collections::assoc(eq, m, k, v), k) == v,
        !equality::says(eq, k, other) ==> collections::get(eq, collections::assoc(eq, m, k, v), other) == collections::get(eq, m, other),
        m is Dict ==> collections::assoc(eq, m, k, v) is Dict,
        m is Record ==> collections::assoc(eq, m, k, v) is Record && collections::assoc(eq, m, k, v)->Record_0 == m->Record_0,
        m is Dict ==> sequences::contains(eq, collections::assoc(eq, m, k, v), k),
        m is Dict && !equality::says(eq, k, other) ==> (sequences::contains(eq, collections::assoc(eq, m, k, v), other) <==> sequences::contains(eq, m, other)),
        m is Dict && sequences::contains(eq, m, k) ==> sequences::count(collections::assoc(eq, m, k, v)) == sequences::count(m),
        m is Dict && !sequences::contains(eq, m, k) ==> sequences::count(collections::assoc(eq, m, k, v)) == sequences::count(m) + 1,
{
    let a = entries(m);
    let n = collections::assoc(eq, m, k, v);
    let b = entries(n);
    collections::a_set_entry_is_found(eq, a, k, v);
    if !equality::says(eq, k, other) {
        collections::other_entries_stay(eq, a, k, v, other);
    }
    key_search(eq, a, k, 0);
    key_search(eq, a, other, 0);
    key_search(eq, b, k, 0);
    key_search(eq, b, other, 0);
    let p = collections::key_at(eq, a, k, 0);
    let q = collections::key_at(eq, b, k, 0);
    if p < a.len() {
        assert(b[p].0 == a[p].0);
        assert(equality::says(eq, b[p].0, k));
        assert(q <= p);
    } else {
        assert(b[a.len() as int] == (k, v));
        assert(equality::says(eq, b[a.len() as int].0, k));
    }
    if !equality::says(eq, k, other) {
        let i = collections::key_at(eq, a, other, 0);
        let j = collections::key_at(eq, b, other, 0);
        if i < a.len() {
            assert(b[i].0 == a[i].0);
        }
        if j < b.len() {
            if j < a.len() {
                assert(b[j].0 == a[j].0);
            } else {
                assert(b[j] == (k, v));
            }
        }
    }
}

/// After the entry of a key is taken away, a map does not have the key, and holds what it did under
/// any other.
pub proof fn an_entry_taken_away_is_gone<F: Fn(&Value, &Value) -> bool>(eq: F, m: ValueView, k: ValueView, other: ValueView)
    requires
        equality::is_equivalence(eq),
        m is Dict,
        is_apart(eq, keys(entries(m))),
    ensures
        sequences::dissoc(eq, m, k) is Dict,
        !sequences::contains(eq, sequences::dissoc(eq, m, k), k),
        collections::get(eq, sequences::dissoc(eq, m, k), k) is Nil,
        !equality::says(eq, k, other) ==> (sequences::contains(eq, sequences::dissoc(eq, m, k), other) <==> sequences::contains(eq, m, other)),
        !equality::says(eq, k, other) ==> collections::get(eq, sequences::dissoc(eq, m, k), other) == collections::get(eq, m, other),
        !sequences::contains(eq, m, k) ==> sequences::dissoc(eq, m, k) == m,
{
    let a = entries(m);
    let b = entries(sequences::dissoc(eq, m, k));
    key_search(eq, a, k, 0);
    key_search(eq, a, other, 0);
    key_search(eq, b, k, 0);
    key_search(eq, b, other, 0);
    let p = collections::key_at(eq, a, k, 0);
    if p < a.len() {
        assert(b =~= a.remove(p));
        assert(equality::says(eq, a[p].0, k));
        assert(keys(a)[p] == a[p].0);
        let q = collections::key_at(eq, b, k, 0);
        if q < b.len() {
            let i: int = if q < p { q } else { q + 1 };
            assert(b[q] == a[i]);
            assert(keys(a)[i] == a[i].0);
            assert(equality::says(eq, k, a[p].0));
            assert(equality::says(eq, keys(a)[i], keys(a)[p]));
        }
        if !equality::says(eq, k, other) {
            let i = collections::key_at(eq, a, other, 0);
            let j = collections::key_at(eq, b, other, 0);
            if i < a.len() {
                if i == p {
                    assert(equality::says(eq, k, a[p].0));
                }
                let n: int = if i < p { i } else { i - 1 };
                assert(b[n] == a[i]);
                assert(j <= n);
            }
            if j < b.len() {
                let n: int = if j < p { j } else { j + 1 };
                assert(b[j] == a[n]);
                assert(keys(a)[n] == a[n].0 && keys(a)[i] == a[i].0);
                assert(i <= n);
                if i != n {
                    assert(equality::says(eq, other, a[n].0));
                    assert(equality::says(eq, keys(a)[i], keys(a)[n]));
                }
            }
        }
    } else {
        assert(b =~= a);
    }
}

/// A vector holds under each of its positions what is there, and nothing elsewhere; what is first
/// is what is at the first position.
pub proof fn positions_are_read<F: Fn(&Value, &Value) -> bool>(eq: F, vs: Seq<ValueView>, i: i64)
    ensures
        0 <= i < vs.len() ==> collections::get(eq, ValueView::Vector(vs), ValueView::Long(i)) == vs[i as int],
        !(0 <= i < vs.len()) ==> collections::get(eq, ValueView::Vector(vs), ValueView::Long(i)) is Nil,
        0 <= i < vs.len() ==> sequences::nth(ValueView::Vector(vs), ValueView::Long(i)) == vs[i as int] && sequences::nth(ValueView::List(vs), ValueView::Long(i)) == vs[i as int],
        !(0 <= i < vs.len()) ==> sequences::nth(ValueView::Vector(vs), ValueView::Long(i)) is Nil && sequences::nth(ValueView::List(vs), ValueView::Long(i)) is Nil,
        sequences::first(ValueView::Vector(vs)) == sequences::nth(ValueView::Vector(vs), ValueView::Long(0)),
        sequences::first(ValueView::List(vs)) == sequences::nth(ValueView::List(vs), ValueView::Long(0)),
        sequences::is_empty(ValueView::Vector(vs)) == (sequences::count(ValueView::Vector(vs)) == 0),
        sequences::is_empty(ValueView::List(vs)) == (sequences::count(ValueView::List(vs)) == 0),
        sequences::is_empty(ValueView::HashSet(vs)) == (sequences::count(ValueView::HashSet(vs)) == 0),
        sequences::is_empty(ValueView::SortedSet(vs)) == (sequences::count(ValueView::SortedSet(vs)) == 0),
{
}

proof fn equal_keys_are_one<F: Fn(&Value, &Value) -> bool>(eq: F, ps: Entries, a: ValueView, b: ValueView, i: int)
    requires
        equality::is_equivalence(eq),
        equality::says(eq, a, b),
        0 <= i <= ps.len(),
    ensures
        collections::key_at(eq, ps, a, i) == collections::key_at(eq, ps, b, i),
    decreases ps.len() - i,
{
    if i < ps.len() {
        let k = ps[i].0;
        assert(equality::says(eq, b, a));
        if equality::says(eq, k, a) {
            assert(equality::says(eq, k, b));
        }
        if equality::says(eq, k, b) {
            assert(equality::says(eq, k, a));
        }
        equal_keys_are_one(eq, ps, a, b, i + 1);
    }
}

/// Of entries that are set one after the other, a map holds under a key what the last of those with an
/// equal key has, and what it held before where there is none.
pub proof fn the_last_entry_counts<F: Fn(&Value, &Value) -> bool>(eq: F, ps: Entries, more: Entries, n: int, at: int, key: ValueView)
    requires
        equality::is_equivalence(eq),
        0 <= n <= more.len(),
        -1 <= at < n,
        at >= 0 ==> equality::says(eq, more[at].0, key),
        forall|j: int| at < j < n ==> !equality::says(eq, (#[trigger] more[j]).0, key),
    ensures
        collections::entry(eq, collections::with_entries(eq, ps, more, n), key) == (if at >= 0 { more[at].1 } else { collections::entry(eq, ps, key) }),
    decreases n,
{
    if n > 0 {
        let before = collections::with_entries(eq, ps, more, n - 1);
        let k = more[n - 1].0;
        let v = more[n - 1].1;
        if at == n - 1 {
            collections::a_set_entry_is_found(eq, before, k, v);
            equal_keys_are_one(eq, collections::with_entry(eq, before, k, v), k, key, 0);
        } else {
            collections::other_entries_stay(eq, before, k, v, key);
            the_last_entry_counts(eq, ps, more, n - 1, at, key);
        }
    }
}

/// Of values that are added one after the other, a set contains each, and what it contained before,
/// and nothing else.
pub proof fn all_added_values_are_contained<F: Fn(&Value, &Value) -> bool>(eq: F, vs: Seq<ValueView>, more: Seq<ValueView>, n: int, x: ValueView)
    requires
        equality::is_equivalence(eq),
        0 <= n <= more.len(),
    ensures
        is_among(eq, collections::with_values(eq, vs, more, n), x) <==> is_among(eq, vs, x) || is_among(eq, more.take(n), x),
        is_apart(eq, vs) ==> is_apart(eq, collections::with_values(eq, vs, more, n)),
    decreases n,
{
    if n > 0 {
        all_added_values_are_contained(eq, vs, more, n - 1, x);
        let before = collections::with_values(eq, vs, more, n - 1);
        let v = more[n - 1];
        let a = ValueView::HashSet(before);
        let b = sequences::conj(eq, a, v, 0);
        an_added_value_is_contained(eq, a, v, 0, x);
        containing_is_membership(eq, a, x);
        containing_is_membership(eq, b, x);
        containing_is_membership(eq, b, v);
        assert(members(b) == collections::with_values(eq, vs, more, n));
        if equality::says(eq, v, x) {
            let i = choose|i: int| 0 <= i < members(b).len() && equality::says(eq, #[trigger] members(b)[i], v);
            assert(equality::says(eq, members(b)[i], x));
            assert(more.take(n)[n - 1] == v);
        }
        if is_among(eq, more.take(n - 1), x) {
            let i = choose|i: int| 0 <= i < n - 1 && equality::says(eq, #[trigger] more.take(n - 1)[i], x);
            assert(more.take(n)[i] == more.take(n - 1)[i]);
        }
        if is_among(eq, more.take(n), x) {
            let i = choose|i: int| 0 <= i < n && equality::says(eq, #[trigger] more.take(n)[i], x);
            if i < n - 1 {
                assert(more.take(n - 1)[i] == more.take(n)[i]);
            }
        }
    } else {
        assert(!is_among(eq, more.take(0), x));
    }
}

/// A vector with what another collection holds has its own values in front and those behind them, a
/// set contains both, and a map holds what the last entry under a key says.
pub proof fn what_is_poured_in_is_there<F: Fn(&Value, &Value) -> bool>(eq: F, to: ValueView, from: ValueView, x: ValueView)
    requires
        equality::is_equivalence(eq),
    ensures
        to is Vector && from is Vector ==> building::into(eq, to, from) == Some(ValueView::Vector(to->Vector_0 + from->Vector_0)),
        to is Vector && is_set(from) ==> building::into(eq, to, from) == Some(ValueView::Vector(to->Vector_0 + members(from))),
        from is Nil && (to is Vector || to is HashSet) ==> building::into(eq, to, from) == Some(to),
        to is HashSet && (from is Vector || from is List || is_set(from)) ==> {
            let more = match from {
                ValueView::Vector(vs) => vs,
                ValueView::List(vs) => vs,
                _ => members(from),
            };
            &&& building::into(eq, to, from) matches Some(t) && t is HashSet && (sequences::contains(eq, t, x) <==> sequences::contains(eq, to, x) || is_among(eq, more, x))
        },
{
    if let ValueView::HashSet(vs) = to {
        if let Some(more) = sequences::eager(from) {
            all_added_values_are_contained(eq, vs, more, more.len() as int, x);
            assert(more.take(more.len() as int) =~= more);
            containing_is_membership(eq, to, x);
            containing_is_membership(eq, building::into(eq, to, from)->Some_0, x);
            assert(from is Nil ==> building::into(eq, to, from) == Some(to));
        }
    }
}

/// A chain holds its head and what its tail holds; what is lazy holds what it is realized to; a list
/// and a vector hold their values.
pub proof fn chains_hold_their_parts(h: ValueView, t: ValueView, vs: Seq<ValueView>)
    ensures
        ({
            let c = ValueView::Cons(Box::new(h), Box::new(t));
            let l = ValueView::LazySeq(Box::new(t));
            &&& sequences::arguments(c) == seq![h] + sequences::arguments(t)
            &&& sequences::arguments(l) == sequences::arguments(t)
            &&& sequences::arguments(ValueView::List(vs)) == vs
            &&& sequences::arguments(ValueView::Vector(vs)) == vs
            &&& sequences::count(c) == sequences::arguments(t).len() + 1
            &&& sequences::count(l) == sequences::arguments(t).len()
            &&& sequences::first(c) == h
            &&& sequences::rest(c) == t
            &&& sequences::realized(c) is Some ==> sequences::realized(c) == Some(sequences::arguments(c))
            &&& t is Nil || t is List || t is Vector ==> sequences::realized(c) is Some
        }),
{
    let c = ValueView::Cons(Box::new(h), Box::new(t));
    let l = ValueView::LazySeq(Box::new(t));
    let (heads, end) = sequences::chain(t);
    assert(sequences::chain(c) == (seq![h] + heads, end));
    assert(sequences::chain(l) == (heads, end));
    assert(sequences::chain(ValueView::List(vs)) == (Seq::<ValueView>::empty(), ValueView::List(vs)));
    assert(sequences::chain(ValueView::Vector(vs)) == (Seq::<ValueView>::empty(), ValueView::Vector(vs)));
    assert(Seq::<ValueView>::empty() + vs =~= vs);
    match end {
        ValueView::List(more) => assert(seq![h] + heads + more =~= seq![h] + (heads + more)),
        ValueView::Vector(more) => assert(seq![h] + heads + more =~= seq![h] + (heads + more)),
        _ => {},
    }
}

/// A collection as a sequence holds what the collection holds, in its order: a set its members, and a
/// map each entry as a vector of its key and its value.
pub proof fn sequences_hold_what_collections_do(coll: ValueView, i: int)
    ensures
        ({
            let s = sequences::arguments(sequences::seq_of(coll));
            &&& is_set(coll) ==> s == members(coll)
            &&& coll is Vector ==> s == coll->Vector_0
            &&& coll is List ==> s == coll->List_0
            &&& coll is Dict ==> s.len() == entries(coll).len() && (0 <= i < s.len() ==> s[i] == ValueView::Vector(seq![entries(coll)[i].0, entries(coll)[i].1]))
        }),
{
    chains_hold_their_parts(coll, coll, Seq::empty());
    let c = sequences::seq_of(coll);
    match c {
        ValueView::List(vs) => chains_hold_their_parts(coll, coll, vs),
        ValueView::Vector(vs) => chains_hold_their_parts(coll, coll, vs),
        _ => {},
    }
    assert(sequences::chain(ValueView::Nil) == (Seq::<ValueView>::empty(), ValueView::Nil));
    if is_set(coll) && members(coll).len() == 0 {
        assert(sequences::arguments(c) =~= members(coll));
    }
    if let ValueView::Vector(vs) = coll {
        if vs.len() == 0 {
            assert(sequences::arguments(c) =~= vs);
        }
    }
    if let ValueView::List(vs) = coll {
        if vs.len() == 0 {
            assert(sequences::arguments(c) =~= vs);
        }
    }
}

} // verus!
