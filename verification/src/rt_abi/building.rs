//! Collections that are built of others in one go.
use crate::rt_abi::calls::Invoked;
use crate::rt_abi::collections;
use crate::rt_abi::collections::{add_value, find_value, look_up, set_entry, Entries};
use crate::rt_abi::equality;
use crate::rt_abi::machine::Regions;
use crate::rt_abi::numbers;
use crate::rt_abi::numbers::rt_truthiness;
use crate::rt_abi::sequences;
use crate::rt_abi::sequences::{add_all, eager_seq_elems};
use crate::value;
use crate::value::{copy_pairs, copy_value, copy_values, Value, ValueView};
use vstd::prelude::*;

verus! {

fn add_values<F: Fn(&Value, &Value) -> bool>(out: &mut Vec<Value>, vs: &Vec<Value>, eq: &F)
    requires
        equality::is_equality(*eq),
    ensures
        value::views(final(out)@) == collections::with_values(*eq, value::views(old(out)@), value::views(vs@), value::views(vs@).len() as int),
{
    let ghost start = value::views(out@);
    let ghost vv = value::views(vs@);
    proof {
        value::views_at(vs@);
    }
    let mut i: usize = 0;
    while i < vs.len()
        invariant
            i <= vs@.len(),
            equality::is_equality(*eq),
            start == value::views(old(out)@),
            vv == value::views(vs@),
            vv.len() == vs@.len(),
            forall|k: int| 0 <= k < vv.len() ==> #[trigger] vv[k] == value::view(vs@[k]),
            value::views(out@) == collections::with_values(*eq, start, vv, i as int),
        decreases vs@.len() - i,
    {
        assert(vv[i as int] == value::view(vs@[i as int]));
        add_value(out, copy_value(&vs[i]), eq);
        i += 1;
    }
}

fn set_entries<F: Fn(&Value, &Value) -> bool>(out: &mut Vec<(Value, Value)>, ps: &Vec<(Value, Value)>, eq: &F)
    requires
        equality::is_equality(*eq),
    ensures
        value::pair_views(final(out)@) == collections::with_entries(*eq, value::pair_views(old(out)@), value::pair_views(ps@), value::pair_views(ps@).len() as int),
{
    let ghost start = value::pair_views(out@);
    let ghost pv = value::pair_views(ps@);
    proof {
        value::pair_views_at(ps@);
    }
    let mut i: usize = 0;
    while i < ps.len()
        invariant
            i <= ps@.len(),
            equality::is_equality(*eq),
            start == value::pair_views(old(out)@),
            pv == value::pair_views(ps@),
            pv.len() == ps@.len(),
            forall|k: int| 0 <= k < pv.len() ==> #[trigger] pv[k] == (value::view(ps@[k].0), value::view(ps@[k].1)),
            value::pair_views(out@) == collections::with_entries(*eq, start, pv, i as int),
        decreases ps@.len() - i,
    {
        assert(pv[i as int] == (value::view(ps@[i as int].0), value::view(ps@[i as int].1)));
        set_entry(out, copy_value(&ps[i].0), copy_value(&ps[i].1), eq);
        i += 1;
    }
}

/// A vector of the values.
pub fn rt_alloc_vector(elems: &Vec<Value>) -> (r: Value)
    ensures
        r@ == ValueView::Vector(value::views(elems@)),
{
    Value::Vector(copy_values(elems))
}

/// A list of the values.
pub fn rt_alloc_list(elems: &Vec<Value>) -> (r: Value)
    ensures
        r@ == ValueView::List(value::views(elems@)),
{
    Value::List(copy_values(elems))
}

/// A map of the entries; of two under one key the later wins.
pub fn rt_alloc_map<F: Fn(&Value, &Value) -> bool>(pairs: &Vec<(Value, Value)>, eq: &F) -> (r: Value)
    requires
        equality::is_equality(*eq),
    ensures
        r@ == ValueView::Dict(collections::with_entries(*eq, Seq::empty(), value::pair_views(pairs@), value::pair_views(pairs@).len() as int)),
{
    let mut out: Vec<(Value, Value)> = Vec::new();
    assert(value::pair_views(out@) =~= Seq::empty());
    set_entries(&mut out, pairs, eq);
    Value::Dict(out)
}

/// A set of the values, each once.
pub fn rt_alloc_set<F: Fn(&Value, &Value) -> bool>(elems: &Vec<Value>, eq: &F) -> (r: Value)
    requires
        equality::is_equality(*eq),
    ensures
        r@ == ValueView::HashSet(collections::with_values(*eq, Seq::empty(), value::views(elems@), value::views(elems@).len() as int)),
{
    let mut out: Vec<Value> = Vec::new();
    assert(value::views(out@) =~= Seq::empty());
    add_values(&mut out, elems, eq);
    Value::HashSet(out)
}

/// A cell.
pub fn rt_alloc_cons(head: &Value, tail: &Value) -> (r: Value)
    ensures
        r@ == ValueView::Cons(Box::new(head@), Box::new(tail@)),
{
    Value::Cons(Box::new(copy_value(head)), Box::new(copy_value(tail)))
}

/// A vector or a list of two values, as an entry.
pub open spec fn pair(v: ValueView) -> Option<(ValueView, ValueView)> {
    match v {
        ValueView::Vector(vs) => if vs.len() == 2 { Some((vs[0], vs[1])) } else { None },
        ValueView::List(vs) => if vs.len() == 2 { Some((vs[0], vs[1])) } else { None },
        _ => None,
    }
}

/// A vector or a list of two values, as an entry.
pub fn as_pair(v: &Value) -> (r: Option<(Value, Value)>)
    ensures
        match r {
            Some(p) => pair(v@) == Some((p.0@, p.1@)),
            None => pair(v@) is None,
        },
{
    match v {
        Value::Vector(vs) => {
            proof {
                value::views_at(vs@);
            }
            if vs.len() == 2 { Some((copy_value(&vs[0]), copy_value(&vs[1]))) } else { None }
        },
        Value::List(vs) => {
            proof {
                value::views_at(vs@);
            }
            if vs.len() == 2 { Some((copy_value(&vs[0]), copy_value(&vs[1]))) } else { None }
        },
        _ => None,
    }
}

/// The first `n` values as entries, where each is one.
pub open spec fn pairs_of(vs: Seq<ValueView>, n: int) -> Option<Entries>
    decreases n,
{
    if n <= 0 || n > vs.len() {
        Some(Seq::empty())
    } else {
        match (pairs_of(vs, n - 1), pair(vs[n - 1])) {
            (Some(ps), Some(p)) => Some(ps.push(p)),
            _ => None,
        }
    }
}

proof fn one_is_missing(vs: Seq<ValueView>, i: int, n: int)
    requires
        0 <= i <= n <= vs.len(),
        pairs_of(vs, i) is None,
    ensures
        pairs_of(vs, n) is None,
    decreases n - i,
{
    if i < n {
        one_is_missing(vs, i, n - 1);
    }
}

fn all_pairs(vs: &Vec<Value>) -> (r: Option<Vec<(Value, Value)>>)
    ensures
        match r {
            Some(ps) => pairs_of(value::views(vs@), value::views(vs@).len() as int) == Some(value::pair_views(ps@)),
            None => pairs_of(value::views(vs@), value::views(vs@).len() as int) is None,
        },
{
    let ghost vv = value::views(vs@);
    proof {
        value::views_at(vs@);
    }
    let mut out: Vec<(Value, Value)> = Vec::new();
    assert(value::pair_views(out@) =~= Seq::empty());
    let mut i: usize = 0;
    while i < vs.len()
        invariant
            i <= vs@.len(),
            vv == value::views(vs@),
            vv.len() == vs@.len(),
            forall|k: int| 0 <= k < vv.len() ==> #[trigger] vv[k] == value::view(vs@[k]),
            pairs_of(vv, i as int) == Some(value::pair_views(out@)),
        decreases vs@.len() - i,
    {
        assert(vv[i as int] == value::view(vs@[i as int]));
        match as_pair(&vs[i]) {
            Some(p) => {
                proof {
                    value::pair_views_push(out@, p);
                }
                out.push(p);
            },
            None => {
                proof {
                    one_is_missing(vv, i + 1, vv.len() as int);
                }
                return None;
            },
        }
        i += 1;
    }
    Some(out)
}

/// What goes into a map: the entries of a map, or the values of a collection at hand, where each is
/// an entry.
pub open spec fn new_entries(from: ValueView) -> Option<Entries> {
    match from {
        ValueView::Dict(ps) => Some(ps),
        _ => match sequences::eager(from) {
            Some(vs) => pairs_of(vs, vs.len() as int),
            None => None,
        },
    }
}

/// What goes into a map.
pub fn into_map_pairs(from: &Value) -> (r: Option<Vec<(Value, Value)>>)
    ensures
        match r {
            Some(ps) => new_entries(from@) == Some(value::pair_views(ps@)),
            None => new_entries(from@) is None,
        },
{
    match from {
        Value::Dict(ps) => return Some(copy_pairs(ps)),
        _ => {},
    }
    match eager_seq_elems(from) {
        Some(vs) => all_pairs(&vs),
        None => None,
    }
}

/// A collection with what another holds: behind a vector, into a set, into a map.  Nothing where
/// the interpreter has to do it.
pub open spec fn into<F: Fn(&Value, &Value) -> bool>(eq: F, to: ValueView, from: ValueView) -> Option<ValueView> {
    match to {
        ValueView::Vector(vs) => match from {
            ValueView::HashSet(more) => Some(ValueView::Vector(vs + more)),
            ValueView::SortedSet(more) => Some(ValueView::Vector(vs + more)),
            ValueView::Vector(more) => Some(ValueView::Vector(vs + more)),
            ValueView::Nil => Some(to),
            _ => None,
        },
        ValueView::HashSet(vs) => match sequences::eager(from) {
            Some(more) => Some(ValueView::HashSet(collections::with_values(eq, vs, more, more.len() as int))),
            None => None,
        },
        ValueView::Dict(ps) => match new_entries(from) {
            Some(more) => Some(ValueView::Dict(collections::with_entries(eq, ps, more, more.len() as int))),
            None => None,
        },
        _ => None,
    }
}

/// A collection with what another holds.
pub fn rt_into<F: Fn(&Value, &Value) -> bool>(to: &Value, from: &Value, eq: &F) -> (r: Option<Value>)
    requires
        equality::is_equality(*eq),
    ensures
        match r {
            Some(v) => into(*eq, to@, from@) == Some(v@),
            None => into(*eq, to@, from@) is None,
        },
{
    match to {
        Value::Vector(vs) => {
            let mut out = copy_values(vs);
            match from {
                Value::HashSet(more) => add_all(&mut out, more),
                Value::SortedSet(more) => add_all(&mut out, more),
                Value::Vector(more) => add_all(&mut out, more),
                Value::Nil => {},
                _ => return None,
            }
            Some(Value::Vector(out))
        },
        Value::HashSet(vs) => match eager_seq_elems(from) {
            Some(more) => {
                let mut out = copy_values(vs);
                add_values(&mut out, &more, eq);
                Some(Value::HashSet(out))
            },
            None => None,
        },
        Value::Dict(ps) => match into_map_pairs(from) {
            Some(more) => {
                let mut out = copy_pairs(ps);
                set_entries(&mut out, &more, eq);
                Some(Value::Dict(out))
            },
            None => None,
        },
        _ => None,
    }
}

/// A set or a vector with more values.  Nothing where the interpreter has to do it.
pub open spec fn into_values<F: Fn(&Value, &Value) -> bool>(eq: F, to: ValueView, more: Seq<ValueView>) -> Option<ValueView> {
    match to {
        ValueView::HashSet(vs) => Some(ValueView::HashSet(collections::with_values(eq, vs, more, more.len() as int))),
        ValueView::Vector(vs) => Some(ValueView::Vector(vs + more)),
        _ => None,
    }
}

/// A set or a vector with what was kept of a filtered collection, or with what a function gave for
/// its values.
pub fn rt_into_values<F: Fn(&Value, &Value) -> bool>(to: &Value, more: &Vec<Value>, eq: &F) -> (r: Option<Value>)
    requires
        equality::is_equality(*eq),
    ensures
        match r {
            Some(v) => into_values(*eq, to@, value::views(more@)) == Some(v@),
            None => into_values(*eq, to@, value::views(more@)) is None,
        },
{
    match to {
        Value::HashSet(vs) => {
            let mut out = copy_values(vs);
            add_values(&mut out, more, eq);
            Some(Value::HashSet(out))
        },
        Value::Vector(vs) => {
            let mut out = copy_values(vs);
            add_all(&mut out, more);
            Some(Value::Vector(out))
        },
        _ => None,
    }
}

/// A collection with what a function gave for the values of another: into a map where each is an
/// entry, into a set, or behind a vector.  Nothing where the interpreter has to do it.
pub open spec fn into_map<F: Fn(&Value, &Value) -> bool>(eq: F, to: ValueView, mapped: Seq<ValueView>) -> Option<ValueView> {
    match to {
        ValueView::Dict(ps) => match pairs_of(mapped, mapped.len() as int) {
            Some(more) => Some(ValueView::Dict(collections::with_entries(eq, ps, more, more.len() as int))),
            None => None,
        },
        _ => into_values(eq, to, mapped),
    }
}

/// A collection with what a function gave for the values of another.
pub fn rt_into_map<F: Fn(&Value, &Value) -> bool>(to: &Value, mapped: &Vec<Value>, eq: &F) -> (r: Option<Value>)
    requires
        equality::is_equality(*eq),
    ensures
        match r {
            Some(v) => into_map(*eq, to@, value::views(mapped@)) == Some(v@),
            None => into_map(*eq, to@, value::views(mapped@)) is None,
        },
{
    match to {
        Value::Dict(ps) => match all_pairs(mapped) {
            Some(more) => {
                let mut out = copy_pairs(ps);
                set_entries(&mut out, &more, eq);
                Some(Value::Dict(out))
            },
            None => None,
        },
        _ => rt_into_values(to, mapped, eq),
    }
}

/// What a map holds for the first `n` values, one behind the other: the members of sets and
/// vectors.
pub open spec fn neighbors<F: Fn(&Value, &Value) -> bool>(eq: F, ps: Entries, vs: Seq<ValueView>, n: int) -> Seq<ValueView>
    decreases n,
{
    if n <= 0 || n > vs.len() {
        Seq::empty()
    } else {
        let rest = neighbors(eq, ps, vs, n - 1);
        match collections::entry(eq, ps, vs[n - 1]) {
            ValueView::HashSet(more) => rest + more,
            ValueView::SortedSet(more) => rest + more,
            ValueView::Vector(more) => rest + more,
            _ => rest,
        }
    }
}

/// A vector of what a map holds for the values of a vector.  Nothing where the interpreter has to
/// do it.
pub fn rt_mapcat<F: Fn(&Value, &Value) -> bool>(f: &Value, coll: &Value, eq: &F) -> (r: Option<Value>)
    requires
        equality::is_equality(*eq),
    ensures
        match (f@, coll@) {
            (ValueView::Dict(ps), ValueView::Vector(vs)) => r is Some && r->0@ == ValueView::Vector(neighbors(*eq, ps, vs, vs.len() as int)),
            _ => r is None,
        },
{
    match (f, coll) {
        (Value::Dict(ps), Value::Vector(vs)) => {
            let ghost pv = value::pair_views(ps@);
            let ghost vv = value::views(vs@);
            proof {
                value::views_at(vs@);
            }
            let mut out: Vec<Value> = Vec::new();
            assert(value::views(out@) =~= Seq::empty());
            let mut i: usize = 0;
            while i < vs.len()
                invariant
                    i <= vs@.len(),
                    equality::is_equality(*eq),
                    pv == value::pair_views(ps@),
                    vv == value::views(vs@),
                    vv.len() == vs@.len(),
                    forall|k: int| 0 <= k < vv.len() ==> #[trigger] vv[k] == value::view(vs@[k]),
                    value::views(out@) == neighbors(*eq, pv, vv, i as int),
                decreases vs@.len() - i,
            {
                assert(vv[i as int] == value::view(vs@[i as int]));
                match look_up(ps, &vs[i], eq) {
                    Value::HashSet(more) => add_all(&mut out, &more),
                    Value::SortedSet(more) => add_all(&mut out, &more),
                    Value::Vector(more) => add_all(&mut out, &more),
                    _ => {},
                }
                i += 1;
            }
            Some(Value::Vector(out))
        },
        _ => None,
    }
}

/// Notes what a predicate said of one more value; hands back what ends the walk where the call threw
/// or failed.
pub fn note_flag(out: &mut Vec<bool>, result: Invoked) -> (r: Option<Invoked>)
    ensures
        match result {
            Invoked::Value(v) => r is None && final(out)@ == old(out)@.push(numbers::truthy(v@)),
            _ => r == Some(result) && final(out)@ == old(out)@,
        },
{
    match result {
        Invoked::Value(v) => {
            out.push(rt_truthiness(&v) == 1);
            None
        },
        other => Some(other),
    }
}

/// Notes what a function gave for one more value; hands back what ends the walk where the call threw or
/// failed.
pub fn note_value(out: &mut Vec<Value>, result: Invoked) -> (r: Option<Invoked>)
    ensures
        match result {
            Invoked::Value(v) => r is None && final(out)@ == old(out)@.push(v),
            _ => r == Some(result) && final(out)@ == old(out)@,
        },
{
    match result {
        Invoked::Value(v) => {
            out.push(v);
            None
        },
        other => Some(other),
    }
}

/// Whether a set or a map, taken as a predicate, keeps a value; nothing for any other predicate.
pub open spec fn keeps<F: Fn(&Value, &Value) -> bool>(eq: F, pred: ValueView, v: ValueView) -> Option<bool> {
    match pred {
        ValueView::HashSet(vs) => Some(collections::value_at(eq, vs, v, 0) < vs.len()),
        ValueView::SortedSet(vs) => Some(collections::value_at(eq, vs, v, 0) < vs.len()),
        ValueView::Dict(ps) => Some(numbers::truthy(collections::entry(eq, ps, v))),
        _ => None,
    }
}

/// Whether a set or a map, taken as a predicate, keeps a value.
pub fn pred_truthy<F: Fn(&Value, &Value) -> bool>(pred: &Value, elem: &Value, eq: &F) -> (r: Option<bool>)
    requires
        equality::is_equality(*eq),
    ensures
        r == keeps(*eq, pred@, elem@),
{
    match pred {
        Value::HashSet(vs) | Value::SortedSet(vs) => {
            proof {
                value::views_at(vs@);
            }
            Some(find_value(vs, elem, eq) < vs.len())
        },
        Value::Dict(ps) => Some(rt_truthiness(&look_up(ps, elem, eq)) == 1),
        _ => None,
    }
}

/// Those of the first `n` values that are kept.
pub open spec fn kept(vs: Seq<ValueView>, flags: Seq<bool>, n: int) -> Seq<ValueView>
    decreases n,
{
    if n <= 0 || n > vs.len() {
        Seq::empty()
    } else if flags[n - 1] {
        kept(vs, flags, n - 1).push(vs[n - 1])
    } else {
        kept(vs, flags, n - 1)
    }
}

/// The values that a predicate keeps.
pub fn filtered(vs: &Vec<Value>, flags: &Vec<bool>) -> (r: Vec<Value>)
    requires
        flags@.len() == vs@.len(),
    ensures
        value::views(r@) == kept(value::views(vs@), flags@, vs@.len() as int),
{
    let ghost vv = value::views(vs@);
    proof {
        value::views_at(vs@);
    }
    let mut out: Vec<Value> = Vec::new();
    assert(value::views(out@) =~= Seq::empty());
    let mut i: usize = 0;
    while i < vs.len()
        invariant
            i <= vs@.len(),
            flags@.len() == vs@.len(),
            vv == value::views(vs@),
            vv.len() == vs@.len(),
            forall|k: int| 0 <= k < vv.len() ==> #[trigger] vv[k] == value::view(vs@[k]),
            value::views(out@) == kept(vv, flags@, i as int),
        decreases vs@.len() - i,
    {
        assert(vv[i as int] == value::view(vs@[i as int]));
        if flags[i] {
            let v = copy_value(&vs[i]);
            proof {
                value::views_push(out@, v);
            }
            out.push(v);
        }
        i += 1;
    }
    out
}

/// The number of values that a predicate keeps.
pub fn rt_count_filter(flags: &Vec<bool>) -> (r: Value)
    ensures
        r@ == ValueView::Long(count_kept(flags@, flags@.len() as int) as i64),
{
    let mut n: usize = 0;
    let mut i: usize = 0;
    while i < flags.len()
        invariant
            i <= flags@.len(),
            n == count_kept(flags@, i as int),
            n <= i,
        decreases flags@.len() - i,
    {
        if flags[i] {
            n += 1;
        }
        i += 1;
    }
    Value::Long(n as i64)
}

/// The number of the first `n` values that are kept.
pub open spec fn count_kept(flags: Seq<bool>, n: int) -> nat
    decreases n,
{
    if n <= 0 || n > flags.len() { 0 } else { count_kept(flags, n - 1) + (if flags[n - 1] { 1nat } else { 0nat }) }
}

/// What is counted is what would be collected.
pub proof fn counting_agrees_with_filtering(vs: Seq<ValueView>, flags: Seq<bool>, n: int)
    requires
        0 <= n <= vs.len(),
        vs.len() == flags.len(),
    ensures
        count_kept(flags, n) == kept(vs, flags, n).len(),
    decreases n,
{
    if n > 0 {
        counting_agrees_with_filtering(vs, flags, n - 1);
    }
}

/// How often a function is called where the count is known; nothing where the interpreter has to do
/// it.
pub fn rt_repeatedly(n: &Value) -> (r: Option<u64>)
    ensures
        match n@ {
            ValueView::Long(k) => if k >= 0 { r == Some(k as u64) } else { r is None },
            _ => r is None,
        },
{
    match n {
        Value::Long(k) => if *k >= 0 { Some(*k as u64) } else { None },
        _ => None,
    }
}

/// What adding the values of a collection to another comes to.
#[derive(Debug)]
pub enum Into {
    Value(Value),
    /// The interpreter adds these values, in this order.
    Rest(Vec<Value>),
    /// The interpreter does it all.
    Again,
}

/// `to` with the values `more`, by the interpreter where it is neither a set nor a vector.
pub open spec fn is_into<F: Fn(&Value, &Value) -> bool>(eq: F, to: ValueView, more: Seq<ValueView>, r: Into) -> bool {
    match into_values(eq, to, more) {
        Some(v) => r is Value && r->Value_0@ == v,
        None => r is Rest && value::views(r->Rest_0@) == more,
    }
}

fn into_or_rest<F: Fn(&Value, &Value) -> bool>(to: &Value, more: Vec<Value>, eq: &F) -> (r: Into)
    requires
        equality::is_equality(*eq),
    ensures
        is_into(*eq, to@, value::views(more@), r),
{
    match rt_into_values(to, &more, eq) {
        Some(v) => Into::Value(v),
        None => Into::Rest(more),
    }
}

/// `(into to (filter pred coll))` in one go, given what the predicate says of each value of `coll`.
pub fn rt_into_filter<F: Fn(&Value, &Value) -> bool>(to: &Value, coll: &Value, flags: &Vec<bool>, eq: &F) -> (r: Into)
    requires
        equality::is_equality(*eq),
        sequences::eager(coll@) is Some ==> flags@.len() == sequences::eager(coll@)->0.len(),
    ensures
        match sequences::eager(coll@) {
            Some(vs) => is_into(*eq, to@, kept(vs, flags@, vs.len() as int), r),
            None => r is Again,
        },
{
    match eager_seq_elems(coll) {
        Some(vs) => {
            proof {
                value::views_at(vs@);
            }
            into_or_rest(to, filtered(&vs, flags), eq)
        },
        None => Into::Again,
    }
}

/// What the first `n` collections hold, one behind the other.  Nothing where one of them is not at
/// hand.
pub open spec fn flattened(colls: Seq<ValueView>, n: int) -> Option<Seq<ValueView>>
    decreases n,
{
    if n <= 0 || n > colls.len() {
        Some(Seq::empty())
    } else {
        match (flattened(colls, n - 1), sequences::eager(colls[n - 1])) {
            (Some(vs), Some(more)) => Some(vs + more),
            _ => None,
        }
    }
}

proof fn flattened_stays_out(colls: Seq<ValueView>, n: int, m: int)
    requires
        flattened(colls, n) is None,
        n <= m <= colls.len(),
    ensures
        flattened(colls, m) is None,
    decreases m - n,
{
    if n < m {
        flattened_stays_out(colls, n, m - 1);
    }
}

fn flatten(colls: &Vec<Value>) -> (r: Option<Vec<Value>>)
    ensures
        match r {
            Some(vs) => flattened(value::views(colls@), colls@.len() as int) == Some(value::views(vs@)),
            None => flattened(value::views(colls@), colls@.len() as int) is None,
        },
{
    let ghost cv = value::views(colls@);
    proof {
        value::views_at(colls@);
    }
    let mut out: Vec<Value> = Vec::new();
    assert(value::views(out@) =~= Seq::empty());
    let mut i: usize = 0;
    while i < colls.len()
        invariant
            i <= colls@.len(),
            cv == value::views(colls@),
            cv.len() == colls@.len(),
            forall|k: int| 0 <= k < cv.len() ==> #[trigger] cv[k] == value::view(colls@[k]),
            flattened(cv, i as int) == Some(value::views(out@)),
        decreases colls@.len() - i,
    {
        assert(cv[i as int] == value::view(colls@[i as int]));
        match eager_seq_elems(&colls[i]) {
            Some(more) => {
                add_all(&mut out, &more);
            },
            None => {
                proof {
                    flattened_stays_out(cv, i + 1, cv.len() as int);
                }
                return None;
            },
        }
        i += 1;
    }
    Some(out)
}

/// `(into to (mapcat f coll))` in one go, given what the function gave for each value.
pub fn rt_into_mapcat<F: Fn(&Value, &Value) -> bool>(to: &Value, results: &Vec<Value>, eq: &F) -> (r: Into)
    requires
        equality::is_equality(*eq),
    ensures
        match flattened(value::views(results@), results@.len() as int) {
            Some(more) => is_into(*eq, to@, more, r),
            None => r is Again,
        },
{
    match flatten(results) {
        Some(more) => into_or_rest(to, more, eq),
        None => Into::Again,
    }
}

/// A value, and the region that it belongs to; none where it is on the heap.
#[derive(Debug)]
pub struct InRegion {
    pub region: Option<u64>,
    pub value: Value,
}

/// Where an allocation for a region goes: to the region, and without one to the innermost that is
/// active, or to the heap.
pub open spec fn place(active: Seq<u64>, handle: u64) -> Option<u64> {
    if handle != 0 {
        Some(handle)
    } else if active.len() > 0 {
        Some(active.last())
    } else {
        None
    }
}

/// Where an allocation for a region goes.
pub fn region_of(regions: &Regions, handle: u64) -> (r: Option<u64>)
    ensures
        r == place(regions.active@, handle),
{
    let n: usize = regions.active.len();
    if handle != 0 {
        Some(handle)
    } else if n > 0 {
        Some(regions.active[n - 1])
    } else {
        None
    }
}

/// A vector of the values, in a region.
pub fn rt_region_alloc_vector(regions: &Regions, handle: u64, elems: &Vec<Value>) -> (r: InRegion)
    ensures
        r.region == place(regions.active@, handle),
        r.value@ == ValueView::Vector(value::views(elems@)),
{
    InRegion { region: region_of(regions, handle), value: rt_alloc_vector(elems) }
}

/// A list of the values, in a region.
pub fn rt_region_alloc_list(regions: &Regions, handle: u64, elems: &Vec<Value>) -> (r: InRegion)
    ensures
        r.region == place(regions.active@, handle),
        r.value@ == ValueView::List(value::views(elems@)),
{
    InRegion { region: region_of(regions, handle), value: rt_alloc_list(elems) }
}

/// A map of the entries, in a region.
pub fn rt_region_alloc_map<F: Fn(&Value, &Value) -> bool>(regions: &Regions, handle: u64, pairs: &Vec<(Value, Value)>, eq: &F) -> (r: InRegion)
    requires
        equality::is_equality(*eq),
    ensures
        r.region == place(regions.active@, handle),
        r.value@ == ValueView::Dict(collections::with_entries(*eq, Seq::empty(), value::pair_views(pairs@), value::pair_views(pairs@).len() as int)),
{
    InRegion { region: region_of(regions, handle), value: rt_alloc_map(pairs, eq) }
}

/// A set of the values, in a region.
pub fn rt_region_alloc_set<F: Fn(&Value, &Value) -> bool>(regions: &Regions, handle: u64, elems: &Vec<Value>, eq: &F) -> (r: InRegion)
    requires
        equality::is_equality(*eq),
    ensures
        r.region == place(regions.active@, handle),
        r.value@ == ValueView::HashSet(collections::with_values(*eq, Seq::empty(), value::views(elems@), value::views(elems@).len() as int)),
{
    InRegion { region: region_of(regions, handle), value: rt_alloc_set(elems, eq) }
}

/// A cell of a head and what is behind it, in a region.
pub fn rt_region_alloc_cons(regions: &Regions, handle: u64, head: &Value, tail: &Value) -> (r: InRegion)
    ensures
        r.region == place(regions.active@, handle),
        r.value@ == ValueView::Cons(Box::new(head@), Box::new(tail@)),
{
    InRegion { region: region_of(regions, handle), value: rt_alloc_cons(head, tail) }
}

} // verus!
