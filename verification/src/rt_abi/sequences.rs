//! Sequences: what collections hold in order, and what is built of it.
use crate::rt_abi::collections;
use crate::rt_abi::collections::{add_value, at, find_key, find_value, Entries};
use crate::rt_abi::equality;
use crate::text::to_chars;
use crate::value;
use crate::value::{copy_pairs, copy_value, copy_values, Value, ValueView};
use vstd::prelude::*;
use vstd::string::*;

verus! {

/// What a collection holds in order, where that is at hand.
pub open spec fn eager(coll: ValueView) -> Option<Seq<ValueView>> {
    match coll {
        ValueView::Vector(vs) => Some(vs),
        ValueView::HashSet(vs) => Some(vs),
        ValueView::SortedSet(vs) => Some(vs),
        ValueView::List(vs) => Some(vs),
        ValueView::Nil => Some(Seq::empty()),
        _ => None,
    }
}

/// What a collection holds in order, where that is at hand.
pub fn eager_seq_elems(coll: &Value) -> (r: Option<Vec<Value>>)
    ensures
        match r {
            Some(vs) => eager(coll@) == Some(value::views(vs@)),
            None => eager(coll@) is None,
        },
{
    match coll {
        Value::Vector(vs) => Some(copy_values(vs)),
        Value::HashSet(vs) => Some(copy_values(vs)),
        Value::SortedSet(vs) => Some(copy_values(vs)),
        Value::List(vs) => Some(copy_values(vs)),
        Value::Nil => {
            let none: Vec<Value> = Vec::new();
            assert(value::views(none@) =~= Seq::empty());
            Some(none)
        },
        _ => None,
    }
}

/// The heads of a chain of cells, and what the chain ends in.
pub open spec fn chain(v: ValueView) -> (Seq<ValueView>, ValueView)
    decreases v,
{
    match v {
        ValueView::Cons(h, t) => {
            let (rest, end) = chain(*t);
            (seq![*h] + rest, end)
        },
        ValueView::LazySeq(s) => chain(*s),
        _ => (Seq::empty(), v),
    }
}

/// What a collection holds in order; a chain of cells is walked, and what is lazy is realized.
pub open spec fn realized(coll: ValueView) -> Option<Seq<ValueView>> {
    match coll {
        ValueView::Cons(_, _) => chained(coll),
        ValueView::LazySeq(_) => chained(coll),
        _ => eager(coll),
    }
}

/// What a chain holds, where it ends in nil, a list or a vector.
pub open spec fn chained(coll: ValueView) -> Option<Seq<ValueView>> {
    let (heads, end) = chain(coll);
    match end {
        ValueView::Nil => Some(heads),
        ValueView::List(vs) => Some(heads + vs),
        ValueView::Vector(vs) => Some(heads + vs),
        _ => None,
    }
}

pub(crate) fn add_all(out: &mut Vec<Value>, vs: &Vec<Value>)
    ensures
        value::views(final(out)@) == value::views(old(out)@) + value::views(vs@),
{
    let ghost start = value::views(out@);
    let ghost vv = value::views(vs@);
    proof {
        value::views_at(vs@);
    }
    let mut i: usize = 0;
    assert(start + vv.take(0) =~= start);
    while i < vs.len()
        invariant
            i <= vs@.len(),
            start == value::views(old(out)@),
            vv == value::views(vs@),
            vv.len() == vs@.len(),
            forall|k: int| 0 <= k < vv.len() ==> #[trigger] vv[k] == value::view(vs@[k]),
            value::views(out@) == start + vv.take(i as int),
        decreases vs@.len() - i,
    {
        let v = copy_value(&vs[i]);
        proof {
            value::views_push(out@, v);
            assert(vv[i as int] == value::view(v));
            assert((start + vv.take(i as int)).push(vv[i as int]) =~= start + vv.take(i + 1));
        }
        out.push(v);
        i += 1;
    }
    assert(vv.take(vs@.len() as int) =~= vv);
}

/// Walks a chain, and returns what it ends in.
fn walk<'a>(v: &'a Value, out: &mut Vec<Value>) -> (r: &'a Value)
    ensures
        value::views(final(out)@) == value::views(old(out)@) + chain(v@).0,
        r@ == chain(v@).1,
{
    let ghost whole = value::views(out@) + chain(v@).0;
    let mut at: &'a Value = v;
    loop
        invariant
            value::views(out@) + chain(at@).0 == whole,
            chain(at@).1 == chain(v@).1,
            whole == value::views(old(out)@) + chain(v@).0,
        decreases at,
    {
        match at {
            Value::Cons(h, t) => {
                let x = copy_value(h);
                let ghost before = value::views(out@);
                proof {
                    value::views_push(out@, x);
                    assert(before + (seq![value::view(**h)] + chain(value::view(**t)).0) =~= before.push(value::view(**h)) + chain(value::view(**t)).0);
                }
                out.push(x);
                at = t;
            },
            Value::LazySeq(s) => {
                at = s;
            },
            _ => {
                assert(value::views(out@) + Seq::<ValueView>::empty() =~= value::views(out@));
                return at;
            },
        }
    }
}

/// What a collection holds in order; a chain of cells is walked, and what is lazy is realized.
pub fn realize_seq_elems(coll: &Value) -> (r: Option<Vec<Value>>)
    ensures
        match r {
            Some(vs) => realized(coll@) == Some(value::views(vs@)),
            None => realized(coll@) is None,
        },
{
    let is_chain = match coll {
        Value::Cons(_, _) => true,
        Value::LazySeq(_) => true,
        _ => false,
    };
    if !is_chain {
        return eager_seq_elems(coll);
    }
    let mut out: Vec<Value> = Vec::new();
    assert(value::views(out@) =~= Seq::empty());
    let end = walk(coll, &mut out);
    assert(value::views(out@) =~= chain(coll@).0);
    match end {
        Value::Nil => Some(out),
        Value::List(vs) => {
            add_all(&mut out, vs);
            Some(out)
        },
        Value::Vector(vs) => {
            add_all(&mut out, vs);
            Some(out)
        },
        _ => None,
    }
}

/// The arguments in a sequence: what a chain holds up to its end, and what is in that where it is a
/// list or a vector.
pub open spec fn arguments(coll: ValueView) -> Seq<ValueView> {
    let (heads, end) = chain(coll);
    match end {
        ValueView::List(vs) => heads + vs,
        ValueView::Vector(vs) => heads + vs,
        _ => heads,
    }
}

/// The arguments in a sequence.
pub fn apply_args(arglist: &Value) -> (r: Vec<Value>)
    ensures
        value::views(r@) == arguments(arglist@),
{
    let mut out: Vec<Value> = Vec::new();
    assert(value::views(out@) =~= Seq::empty());
    let end = walk(arglist, &mut out);
    assert(value::views(out@) =~= chain(arglist@).0);
    match end {
        Value::List(vs) => add_all(&mut out, vs),
        Value::Vector(vs) => add_all(&mut out, vs),
        _ => {},
    }
    out
}

/// The number of bytes of a text.
pub open spec fn byte_count(t: Seq<char>) -> nat {
    (vstd::utf8::encode_utf8(t).len() as usize) as nat
}

/// The number of values in a collection, or of bytes in a text.
pub open spec fn count(coll: ValueView) -> nat {
    match coll {
        ValueView::Vector(vs) => vs.len(),
        ValueView::Dict(ps) => ps.len(),
        ValueView::HashSet(vs) => vs.len(),
        ValueView::SortedSet(vs) => vs.len(),
        ValueView::List(vs) => vs.len(),
        ValueView::Str(t) => byte_count(t),
        ValueView::Cons(_, _) => arguments(coll).len(),
        ValueView::LazySeq(_) => arguments(coll).len(),
        _ => 0,
    }
}

/// The number of values in a collection.
pub fn rt_count(coll: &Value) -> (r: Value)
    ensures
        r@ == ValueView::Long(count(coll@) as i64),
{
    let n: usize = match coll {
        Value::Vector(vs) => {
            proof {
                value::views_at(vs@);
            }
            vs.len()
        },
        Value::Dict(ps) => {
            proof {
                value::pair_views_at(ps@);
            }
            ps.len()
        },
        Value::HashSet(vs) | Value::SortedSet(vs) => {
            proof {
                value::views_at(vs@);
            }
            vs.len()
        },
        Value::List(vs) => {
            proof {
                value::views_at(vs@);
            }
            vs.len()
        },
        Value::Str(t) => t.as_str().len(),
        Value::Cons(_, _) => {
            let vs = apply_args(coll);
            proof {
                value::views_at(vs@);
            }
            vs.len()
        },
        Value::LazySeq(_) => {
            let vs = apply_args(coll);
            proof {
                value::views_at(vs@);
            }
            vs.len()
        },
        _ => 0,
    };
    Value::Long(n as i64)
}

/// The first value of a vector, a list or a chain; nil where there is none.
pub open spec fn first(coll: ValueView) -> ValueView {
    match coll {
        ValueView::Vector(vs) => if vs.len() > 0 { vs[0] } else { ValueView::Nil },
        ValueView::List(vs) => if vs.len() > 0 { vs[0] } else { ValueView::Nil },
        ValueView::Cons(h, _) => *h,
        _ => ValueView::Nil,
    }
}

/// The first value of a collection.
pub fn rt_first(coll: &Value) -> (r: Value)
    ensures
        r@ == first(coll@),
{
    match coll {
        Value::Vector(vs) => at(vs, 0),
        Value::List(vs) => at(vs, 0),
        Value::Cons(h, _) => copy_value(h),
        _ => Value::Nil,
    }
}

/// What is behind the first value, as a list; behind a cell it is what the cell holds.
pub open spec fn rest(coll: ValueView) -> ValueView {
    match coll {
        ValueView::List(vs) => ValueView::List(if vs.len() > 0 { vs.skip(1) } else { Seq::empty() }),
        ValueView::Vector(vs) => ValueView::List(if vs.len() > 0 { vs.skip(1) } else { Seq::empty() }),
        ValueView::Cons(_, t) => *t,
        _ => ValueView::List(Seq::empty()),
    }
}

fn behind_first(vs: &Vec<Value>) -> (r: Vec<Value>)
    ensures
        value::views(r@) == (if value::views(vs@).len() > 0 { value::views(vs@).skip(1) } else { Seq::empty() }),
{
    let ghost vv = value::views(vs@);
    proof {
        value::views_at(vs@);
    }
    let mut out: Vec<Value> = Vec::new();
    assert(value::views(out@) =~= Seq::empty());
    if vs.len() == 0 {
        return out;
    }
    let mut i: usize = 1;
    assert(vv.subrange(1, 1) =~= Seq::empty());
    while i < vs.len()
        invariant
            1 <= i <= vs@.len(),
            vv == value::views(vs@),
            vv.len() == vs@.len(),
            forall|k: int| 0 <= k < vv.len() ==> #[trigger] vv[k] == value::view(vs@[k]),
            value::views(out@) == vv.subrange(1, i as int),
        decreases vs@.len() - i,
    {
        let v = copy_value(&vs[i]);
        proof {
            value::views_push(out@, v);
            assert(vv[i as int] == value::view(v));
            assert(vv.subrange(1, i + 1) =~= vv.subrange(1, i as int).push(vv[i as int]));
        }
        out.push(v);
        i += 1;
    }
    assert(vv.subrange(1, vv.len() as int) =~= vv.skip(1));
    out
}

/// What is behind the first value of a collection.
pub fn rt_rest(coll: &Value) -> (r: Value)
    ensures
        r@ == rest(coll@),
{
    match coll {
        Value::List(vs) => Value::List(behind_first(vs)),
        Value::Vector(vs) => Value::List(behind_first(vs)),
        Value::Cons(_, t) => copy_value(t),
        _ => {
            let none: Vec<Value> = Vec::new();
            assert(value::views(none@) =~= Seq::empty());
            Value::List(none)
        },
    }
}

/// A list or a vector is its first value and what is behind it.
pub proof fn first_and_rest_make_the_whole(vs: Seq<ValueView>)
    requires
        vs.len() > 0,
    ensures
        seq![first(ValueView::List(vs))] + rest(ValueView::List(vs))->List_0 == vs,
        seq![first(ValueView::Vector(vs))] + rest(ValueView::Vector(vs))->List_0 == vs,
{
    assert(seq![vs[0]] + vs.skip(1) =~= vs);
}

/// The value at a position of a vector or a list, or the character at one of a text.
pub open spec fn nth(coll: ValueView, idx: ValueView) -> ValueView {
    match idx {
        ValueView::Long(i) => match coll {
            ValueView::Vector(vs) => if 0 <= i < vs.len() { vs[i as int] } else { ValueView::Nil },
            ValueView::List(vs) => if 0 <= i < vs.len() { vs[i as int] } else { ValueView::Nil },
            ValueView::Str(t) => if 0 <= i < t.len() { ValueView::Char(t[i as int]) } else { ValueView::Nil },
            _ => ValueView::Nil,
        },
        _ => ValueView::Nil,
    }
}

/// The value at a position.
pub fn rt_nth(coll: &Value, idx: &Value) -> (r: Value)
    ensures
        r@ == nth(coll@, idx@),
{
    match idx {
        Value::Long(i) => match coll {
            Value::Vector(vs) => at(vs, *i),
            Value::List(vs) => at(vs, *i),
            Value::Str(t) => {
                let cs = to_chars(t.as_str());
                if *i >= 0 && (*i as u64) < (cs.len() as u64) { char_value(cs[*i as usize]) } else { Value::Nil }
            },
            _ => Value::Nil,
        },
        _ => Value::Nil,
    }
}

/// A map has the key, a set has the value, or a vector has the position.
pub open spec fn contains<F: Fn(&Value, &Value) -> bool>(eq: F, coll: ValueView, key: ValueView) -> bool {
    match coll {
        ValueView::Dict(ps) => collections::key_at(eq, ps, key, 0) < ps.len(),
        ValueView::HashSet(vs) => collections::value_at(eq, vs, key, 0) < vs.len(),
        ValueView::SortedSet(vs) => collections::value_at(eq, vs, key, 0) < vs.len(),
        ValueView::Vector(vs) => match key {
            ValueView::Long(i) => 0 <= i < vs.len(),
            _ => false,
        },
        _ => false,
    }
}

/// Whether a collection has a key.
pub fn rt_contains<F: Fn(&Value, &Value) -> bool>(coll: &Value, key: &Value, eq: &F) -> (r: Value)
    requires
        equality::is_equality(*eq),
    ensures
        r@ == ValueView::Bool(contains(*eq, coll@, key@)),
{
    let has = match coll {
        Value::Dict(ps) => {
            proof {
                value::pair_views_at(ps@);
            }
            find_key(ps, key, eq) < ps.len()
        },
        Value::HashSet(vs) | Value::SortedSet(vs) => {
            proof {
                value::views_at(vs@);
            }
            find_value(vs, key, eq) < vs.len()
        },
        Value::Vector(vs) => {
            proof {
                value::views_at(vs@);
            }
            match key {
                Value::Long(i) => *i >= 0 && (*i as u64) < (vs.len() as u64),
                _ => false,
            }
        },
        _ => false,
    };
    Value::Bool(has)
}

/// A collection is empty; what is none is not.
pub open spec fn is_empty(coll: ValueView) -> bool {
    match coll {
        ValueView::Vector(vs) => vs.len() == 0,
        ValueView::Dict(ps) => ps.len() == 0,
        ValueView::HashSet(vs) => vs.len() == 0,
        ValueView::SortedSet(vs) => vs.len() == 0,
        ValueView::List(vs) => vs.len() == 0,
        ValueView::Nil => true,
        _ => false,
    }
}

/// Whether a collection is empty.
pub fn rt_is_empty(coll: &Value) -> (r: Value)
    ensures
        r@ == ValueView::Bool(is_empty(coll@)),
{
    let empty = match coll {
        Value::Vector(vs) => {
            proof {
                value::views_at(vs@);
            }
            vs.len() == 0
        },
        Value::Dict(ps) => {
            proof {
                value::pair_views_at(ps@);
            }
            ps.len() == 0
        },
        Value::HashSet(vs) | Value::SortedSet(vs) => {
            proof {
                value::views_at(vs@);
            }
            vs.len() == 0
        },
        Value::List(vs) => {
            proof {
                value::views_at(vs@);
            }
            vs.len() == 0
        },
        Value::Nil => true,
        _ => false,
    };
    Value::Bool(empty)
}

/// The entries of a map, each as a vector of its key and its value.
pub open spec fn entry_vectors(ps: Entries) -> Seq<ValueView> {
    ps.map_values(|p: (ValueView, ValueView)| ValueView::Vector(seq![p.0, p.1]))
}

/// The first `n` characters of a text.
pub open spec fn char_values(t: Seq<char>, n: int) -> Seq<ValueView>
    decreases n,
{
    if n <= 0 || n > t.len() { Seq::empty() } else { char_values(t, n - 1).push(ValueView::Char(t[n - 1])) }
}

/// A collection as a sequence; nil where it holds nothing.
pub open spec fn seq_of(coll: ValueView) -> ValueView {
    match coll {
        ValueView::List(vs) => if vs.len() == 0 { ValueView::Nil } else { coll },
        ValueView::Vector(vs) => if vs.len() == 0 { ValueView::Nil } else { coll },
        ValueView::Dict(ps) => if ps.len() == 0 { ValueView::Nil } else { ValueView::List(entry_vectors(ps)) },
        ValueView::HashSet(vs) => if vs.len() == 0 { ValueView::Nil } else { ValueView::List(vs) },
        ValueView::SortedSet(vs) => if vs.len() == 0 { ValueView::Nil } else { ValueView::List(vs) },
        ValueView::Str(t) => if t.len() == 0 { ValueView::Nil } else { ValueView::List(char_values(t, t.len() as int)) },
        ValueView::Cons(_, _) => coll,
        ValueView::LazySeq(_) => coll,
        _ => ValueView::Nil,
    }
}

fn entries_as_vectors(ps: &Vec<(Value, Value)>) -> (r: Vec<Value>)
    ensures
        value::views(r@) == entry_vectors(value::pair_views(ps@)),
{
    let ghost pv = value::pair_views(ps@);
    proof {
        value::pair_views_at(ps@);
    }
    let mut out: Vec<Value> = Vec::new();
    assert(value::views(out@) =~= entry_vectors(pv).take(0));
    let mut i: usize = 0;
    while i < ps.len()
        invariant
            i <= ps@.len(),
            pv == value::pair_views(ps@),
            pv.len() == ps@.len(),
            forall|k: int| 0 <= k < pv.len() ==> #[trigger] pv[k] == (value::view(ps@[k].0), value::view(ps@[k].1)),
            value::views(out@) == entry_vectors(pv).take(i as int),
        decreases ps@.len() - i,
    {
        let mut pair: Vec<Value> = Vec::new();
        assert(value::views(pair@) =~= Seq::empty());
        let k = copy_value(&ps[i].0);
        let v = copy_value(&ps[i].1);
        proof {
            value::views_push(pair@, k);
        }
        pair.push(k);
        proof {
            value::views_push(pair@, v);
        }
        pair.push(v);
        proof {
            assert(pv[i as int] == (value::view(k), value::view(v)));
            assert(value::views(pair@) =~= seq![value::view(k), value::view(v)]);
            let all = Value::Vector(pair);
            value::views_push(out@, all);
            assert(entry_vectors(pv).take(i + 1) =~= entry_vectors(pv).take(i as int).push(entry_vectors(pv)[i as int]));
        }
        out.push(Value::Vector(pair));
        i += 1;
    }
    assert(entry_vectors(pv).take(ps@.len() as int) =~= entry_vectors(pv));
    out
}

pub(crate) fn char_value(c: char) -> (r: Value)
    ensures
        r@ == ValueView::Char(c),
{
    Value::Char(c)
}

fn chars_of(t: &str) -> (r: Vec<Value>)
    ensures
        value::views(r@) == char_values(t@, t@.len() as int),
        r@.len() == t@.len(),
{
    let cs = to_chars(t);
    let mut out: Vec<Value> = Vec::new();
    assert(value::views(out@) =~= Seq::empty());
    let mut i: usize = 0;
    while i < cs.len()
        invariant
            i <= cs@.len(),
            cs@ == t@,
            out@.len() == i,
            value::views(out@) == char_values(t@, i as int),
        decreases cs@.len() - i,
    {
        let v = char_value(cs[i]);
        proof {
            value::views_push(out@, v);
        }
        out.push(v);
        i += 1;
    }
    out
}

/// A collection as a sequence.
pub fn rt_seq(coll: &Value) -> (r: Value)
    ensures
        r@ == seq_of(coll@),
{
    match coll {
        Value::List(vs) => {
            proof {
                value::views_at(vs@);
            }
            if vs.len() == 0 { Value::Nil } else { copy_value(coll) }
        },
        Value::Vector(vs) => {
            proof {
                value::views_at(vs@);
            }
            if vs.len() == 0 { Value::Nil } else { copy_value(coll) }
        },
        Value::Dict(ps) => {
            proof {
                value::pair_views_at(ps@);
            }
            if ps.len() == 0 { Value::Nil } else { Value::List(entries_as_vectors(ps)) }
        },
        Value::HashSet(vs) | Value::SortedSet(vs) => {
            proof {
                value::views_at(vs@);
            }
            if vs.len() == 0 { Value::Nil } else { Value::List(copy_values(vs)) }
        },
        Value::Str(t) => {
            let cs = chars_of(t.as_str());
            if cs.len() == 0 { Value::Nil } else { Value::List(cs) }
        },
        Value::Cons(_, _) => copy_value(coll),
        Value::LazySeq(_) => copy_value(coll),
        _ => Value::Nil,
    }
}

/// A sequence is nil exactly where the collection is empty.
pub proof fn nothing_is_no_sequence(coll: ValueView)
    requires
        coll is List || coll is Vector || coll is Dict || coll is HashSet || coll is SortedSet || coll is Nil || coll is Cons,
    ensures
        (seq_of(coll) == ValueView::Nil) == is_empty(coll),
{
}

/// The members of a sorted set with one more, which its order puts at `at`; one that is there stays
/// where it is.
pub open spec fn with_sorted<F: Fn(&Value, &Value) -> bool>(eq: F, vs: Seq<ValueView>, v: ValueView, at: usize) -> Seq<ValueView> {
    if collections::value_at(eq, vs, v, 0) < vs.len() {
        vs
    } else {
        vs.insert(if at < vs.len() { at as int } else { vs.len() as int }, v)
    }
}

/// A collection with one more value: at the end of a vector, at the front of a list, or in a set.  The
/// order of a sorted set is its own: `at` is where it puts the value.
pub open spec fn conj<F: Fn(&Value, &Value) -> bool>(eq: F, coll: ValueView, v: ValueView, at: usize) -> ValueView {
    match coll {
        ValueView::Vector(vs) => ValueView::Vector(vs.push(v)),
        ValueView::List(vs) => ValueView::List(seq![v] + vs),
        ValueView::HashSet(vs) => ValueView::HashSet(collections::with_value(eq, vs, v)),
        ValueView::SortedSet(vs) => ValueView::SortedSet(with_sorted(eq, vs, v, at)),
        _ => ValueView::Nil,
    }
}

/// A collection with one more value.
pub fn rt_conj<F: Fn(&Value, &Value) -> bool>(coll: &Value, v: &Value, eq: &F, at: usize) -> (r: Value)
    requires
        equality::is_equality(*eq),
    ensures
        r@ == conj(*eq, coll@, v@, at),
{
    let x = copy_value(v);
    match coll {
        Value::Vector(vs) => {
            let mut out = copy_values(vs);
            proof {
                value::views_push(out@, x);
            }
            out.push(x);
            Value::Vector(out)
        },
        Value::List(vs) => {
            let mut out: Vec<Value> = Vec::new();
            assert(value::views(out@) =~= Seq::empty());
            proof {
                value::views_push(out@, x);
            }
            out.push(x);
            assert(value::views(out@) =~= seq![x@]);
            add_all(&mut out, vs);
            Value::List(out)
        },
        Value::HashSet(vs) => {
            let mut out = copy_values(vs);
            add_value(&mut out, x, eq);
            Value::HashSet(out)
        },
        Value::SortedSet(vs) => {
            let mut out = copy_values(vs);
            let ghost before = out@;
            proof {
                value::views_at(vs@);
                value::views_at(before);
            }
            if find_value(vs, v, eq) == vs.len() {
                let place: usize = if at < out.len() { at } else { out.len() };
                out.insert(place, x);
                proof {
                    value::views_at(out@);
                    assert(value::views(out@) =~= value::views(before).insert(place as int, v@));
                }
            }
            Value::SortedSet(out)
        },
        _ => Value::Nil,
    }
}

/// A value without what it held under a key.
pub open spec fn dissoc<F: Fn(&Value, &Value) -> bool>(eq: F, m: ValueView, k: ValueView) -> ValueView {
    match m {
        ValueView::Dict(ps) => ValueView::Dict(collections::without_entry(eq, ps, k)),
        _ => m,
    }
}

/// A map without the entry of a key; anything else as it is.
pub fn rt_dissoc<F: Fn(&Value, &Value) -> bool>(m: &Value, k: &Value, eq: &F) -> (r: Value)
    requires
        equality::is_equality(*eq),
    ensures
        r@ == dissoc(*eq, m@, k@),
{
    match m {
        Value::Dict(ps) => {
            let i: usize = find_key(ps, k, eq);
            let mut out = copy_pairs(ps);
            proof {
                value::pair_views_at(ps@);
                value::pair_views_at(out@);
            }
            if i < out.len() {
                let ghost before = out@;
                out.remove(i);
                proof {
                    value::pair_views_at(out@);
                    assert(value::pair_views(out@) =~= value::pair_views(before).remove(i as int));
                }
            }
            Value::Dict(out)
        },
        _ => copy_value(m),
    }
}

/// A value without one that it held.
pub open spec fn disj<F: Fn(&Value, &Value) -> bool>(eq: F, s: ValueView, v: ValueView) -> ValueView {
    match s {
        ValueView::HashSet(vs) => ValueView::HashSet(collections::without_value(eq, vs, v)),
        ValueView::SortedSet(vs) => ValueView::SortedSet(collections::without_value(eq, vs, v)),
        _ => s,
    }
}

fn removed<F: Fn(&Value, &Value) -> bool>(vs: &Vec<Value>, v: &Value, eq: &F) -> (r: Vec<Value>)
    requires
        equality::is_equality(*eq),
    ensures
        value::views(r@) == collections::without_value(*eq, value::views(vs@), v@),
{
    let i: usize = find_value(vs, v, eq);
    let mut out = copy_values(vs);
    proof {
        value::views_at(vs@);
        value::views_at(out@);
    }
    if i < out.len() {
        let ghost before = out@;
        out.remove(i);
        proof {
            value::views_at(out@);
            assert(value::views(out@) =~= value::views(before).remove(i as int));
        }
    }
    out
}

/// A set without a value; anything else as it is.
pub fn rt_disj<F: Fn(&Value, &Value) -> bool>(s: &Value, v: &Value, eq: &F) -> (r: Value)
    requires
        equality::is_equality(*eq),
    ensures
        r@ == disj(*eq, s@, v@),
{
    match s {
        Value::HashSet(vs) => Value::HashSet(removed(vs, v, eq)),
        Value::SortedSet(vs) => Value::SortedSet(removed(vs, v, eq)),
        _ => copy_value(s),
    }
}

/// The last value of a vector, nil where it has none; other collections are left to the interpreter.
pub fn rt_peek(coll: &Value) -> (r: Option<Value>)
    ensures
        match coll@ {
            ValueView::Vector(vs) => r is Some && r->0@ == (if vs.len() > 0 { vs.last() } else { ValueView::Nil }),
            _ => r is None,
        },
{
    match coll {
        Value::Vector(vs) => {
            proof {
                value::views_at(vs@);
            }
            if vs.len() > 0 { Some(copy_value(&vs[vs.len() - 1])) } else { Some(Value::Nil) }
        },
        _ => None,
    }
}

/// A vector without its last value, nil where it has none; other collections are left to the
/// interpreter.
pub fn rt_pop(coll: &Value) -> (r: Option<Value>)
    ensures
        match coll@ {
            ValueView::Vector(vs) => r is Some && r->0@ == (if vs.len() > 0 { ValueView::Vector(vs.drop_last()) } else { ValueView::Nil }),
            _ => r is None,
        },
{
    match coll {
        Value::Vector(vs) => {
            let mut out = copy_values(vs);
            proof {
                value::views_at(vs@);
                value::views_at(out@);
            }
            if out.len() == 0 {
                return Some(Value::Nil);
            }
            let ghost before = out@;
            let _ = out.pop();
            proof {
                value::views_at(out@);
                assert(value::views(out@) =~= value::views(before).drop_last());
            }
            Some(Value::Vector(out))
        },
        _ => None,
    }
}

/// A vector as it is; other collections are left to the interpreter.
pub fn rt_vec(coll: &Value) -> (r: Option<Value>)
    ensures
        match coll@ {
            ValueView::Vector(_) => r is Some && r->0@ == coll@,
            _ => r is None,
        },
{
    match coll {
        Value::Vector(_) => Some(copy_value(coll)),
        _ => None,
    }
}

} // verus!
