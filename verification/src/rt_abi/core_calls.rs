//! Bridge functions that hand their arguments to a function of the core library.
use crate::value;
use crate::value::{copy_value, copy_values, Value, ValueView};
use vstd::prelude::*;

verus! {

/// A call of a function of `clojure.core`.
#[derive(Debug)]
pub struct CoreCall {
    pub name: &'static str,
    pub args: Vec<Value>,
}

/// What a call is: the name of the function and its arguments.
pub struct CoreCallView {
    pub name: Seq<char>,
    pub args: Seq<ValueView>,
}

impl View for CoreCall {
    type V = CoreCallView;

    open spec fn view(&self) -> CoreCallView {
        CoreCallView { name: self.name@, args: value::views(self.args@) }
    }
}

/// A call with copies of the given arguments.
fn call_of(name: &'static str, args: Vec<&Value>) -> (r: CoreCall)
    ensures
        r.name@ == name@,
        value::views(r.args@).len() == args@.len(),
        forall|k: int| 0 <= k < args@.len() ==> #[trigger] value::views(r.args@)[k] == args@[k]@,
{
    let mut out: Vec<Value> = Vec::new();
    assert(value::views(out@) =~= Seq::empty());
    let mut i: usize = 0;
    while i < args.len()
        invariant
            i <= args@.len(),
            value::views(out@).len() == i,
            forall|k: int| 0 <= k < i ==> #[trigger] value::views(out@)[k] == args@[k]@,
        decreases args@.len() - i,
    {
        let v = copy_value(args[i]);
        proof {
            value::views_push(out@, v);
        }
        out.push(v);
        i += 1;
    }
    CoreCall { name, args: out }
}

/// `(reduce f coll)`.
pub fn rt_reduce2(f: &Value, coll: &Value) -> (r: CoreCall)
    ensures
        r@ == (CoreCallView { name: "reduce"@, args: seq![f@, coll@] }),
{
    let r = call_of("reduce", vec![f, coll]);
    assert(value::views(r.args@) =~= seq![f@, coll@]);
    r
}

/// `(reduce f init coll)`.
pub fn rt_reduce3(f: &Value, init: &Value, coll: &Value) -> (r: CoreCall)
    ensures
        r@ == (CoreCallView { name: "reduce"@, args: seq![f@, init@, coll@] }),
{
    let r = call_of("reduce", vec![f, init, coll]);
    assert(value::views(r.args@) =~= seq![f@, init@, coll@]);
    r
}

/// `(map f coll)`.
pub fn rt_map(f: &Value, coll: &Value) -> (r: CoreCall)
    ensures
        r@ == (CoreCallView { name: "map"@, args: seq![f@, coll@] }),
{
    let r = call_of("map", vec![f, coll]);
    assert(value::views(r.args@) =~= seq![f@, coll@]);
    r
}

/// `(filter pred coll)`.
pub fn rt_filter(pred: &Value, coll: &Value) -> (r: CoreCall)
    ensures
        r@ == (CoreCallView { name: "filter"@, args: seq![pred@, coll@] }),
{
    let r = call_of("filter", vec![pred, coll]);
    assert(value::views(r.args@) =~= seq![pred@, coll@]);
    r
}

/// `(mapv f coll)`.
pub fn rt_mapv(f: &Value, coll: &Value) -> (r: CoreCall)
    ensures
        r@ == (CoreCallView { name: "mapv"@, args: seq![f@, coll@] }),
{
    let r = call_of("mapv", vec![f, coll]);
    assert(value::views(r.args@) =~= seq![f@, coll@]);
    r
}

/// `(filterv pred coll)`.
pub fn rt_filterv(pred: &Value, coll: &Value) -> (r: CoreCall)
    ensures
        r@ == (CoreCallView { name: "filterv"@, args: seq![pred@, coll@] }),
{
    let r = call_of("filterv", vec![pred, coll]);
    assert(value::views(r.args@) =~= seq![pred@, coll@]);
    r
}

/// `(some pred coll)`.
pub fn rt_some(pred: &Value, coll: &Value) -> (r: CoreCall)
    ensures
        r@ == (CoreCallView { name: "some"@, args: seq![pred@, coll@] }),
{
    let r = call_of("some", vec![pred, coll]);
    assert(value::views(r.args@) =~= seq![pred@, coll@]);
    r
}

/// `(every? pred coll)`.
pub fn rt_every(pred: &Value, coll: &Value) -> (r: CoreCall)
    ensures
        r@ == (CoreCallView { name: "every?"@, args: seq![pred@, coll@] }),
{
    let r = call_of("every?", vec![pred, coll]);
    assert(value::views(r.args@) =~= seq![pred@, coll@]);
    r
}

/// `(into to xform from)`.
pub fn rt_into3(to: &Value, xform: &Value, from: &Value) -> (r: CoreCall)
    ensures
        r@ == (CoreCallView { name: "into"@, args: seq![to@, xform@, from@] }),
{
    let r = call_of("into", vec![to, xform, from]);
    assert(value::views(r.args@) =~= seq![to@, xform@, from@]);
    r
}

/// `(group-by f coll)`.
pub fn rt_group_by(f: &Value, coll: &Value) -> (r: CoreCall)
    ensures
        r@ == (CoreCallView { name: "group-by"@, args: seq![f@, coll@] }),
{
    let r = call_of("group-by", vec![f, coll]);
    assert(value::views(r.args@) =~= seq![f@, coll@]);
    r
}

/// `(partition n coll)`.
pub fn rt_partition2(n: &Value, coll: &Value) -> (r: CoreCall)
    ensures
        r@ == (CoreCallView { name: "partition"@, args: seq![n@, coll@] }),
{
    let r = call_of("partition", vec![n, coll]);
    assert(value::views(r.args@) =~= seq![n@, coll@]);
    r
}

/// `(partition n step coll)`.
pub fn rt_partition3(n: &Value, step: &Value, coll: &Value) -> (r: CoreCall)
    ensures
        r@ == (CoreCallView { name: "partition"@, args: seq![n@, step@, coll@] }),
{
    let r = call_of("partition", vec![n, step, coll]);
    assert(value::views(r.args@) =~= seq![n@, step@, coll@]);
    r
}

/// `(partition n step pad coll)`.
pub fn rt_partition4(n: &Value, step: &Value, pad: &Value, coll: &Value) -> (r: CoreCall)
    ensures
        r@ == (CoreCallView { name: "partition"@, args: seq![n@, step@, pad@, coll@] }),
{
    let r = call_of("partition", vec![n, step, pad, coll]);
    assert(value::views(r.args@) =~= seq![n@, step@, pad@, coll@]);
    r
}

/// `(frequencies coll)`.
pub fn rt_frequencies(coll: &Value) -> (r: CoreCall)
    ensures
        r@ == (CoreCallView { name: "frequencies"@, args: seq![coll@] }),
{
    let r = call_of("frequencies", vec![coll]);
    assert(value::views(r.args@) =~= seq![coll@]);
    r
}

/// `(keep f coll)`.
pub fn rt_keep(f: &Value, coll: &Value) -> (r: CoreCall)
    ensures
        r@ == (CoreCallView { name: "keep"@, args: seq![f@, coll@] }),
{
    let r = call_of("keep", vec![f, coll]);
    assert(value::views(r.args@) =~= seq![f@, coll@]);
    r
}

/// `(remove pred coll)`.
pub fn rt_remove(pred: &Value, coll: &Value) -> (r: CoreCall)
    ensures
        r@ == (CoreCallView { name: "remove"@, args: seq![pred@, coll@] }),
{
    let r = call_of("remove", vec![pred, coll]);
    assert(value::views(r.args@) =~= seq![pred@, coll@]);
    r
}

/// `(map-indexed f coll)`.
pub fn rt_map_indexed(f: &Value, coll: &Value) -> (r: CoreCall)
    ensures
        r@ == (CoreCallView { name: "map-indexed"@, args: seq![f@, coll@] }),
{
    let r = call_of("map-indexed", vec![f, coll]);
    assert(value::views(r.args@) =~= seq![f@, coll@]);
    r
}

/// `(zipmap keys vals)`.
pub fn rt_zipmap(keys: &Value, vals: &Value) -> (r: CoreCall)
    ensures
        r@ == (CoreCallView { name: "zipmap"@, args: seq![keys@, vals@] }),
{
    let r = call_of("zipmap", vec![keys, vals]);
    assert(value::views(r.args@) =~= seq![keys@, vals@]);
    r
}

/// `(complement f)`.
pub fn rt_complement(f: &Value) -> (r: CoreCall)
    ensures
        r@ == (CoreCallView { name: "complement"@, args: seq![f@] }),
{
    let r = call_of("complement", vec![f]);
    assert(value::views(r.args@) =~= seq![f@]);
    r
}

/// `(range end)`.
pub fn rt_range1(end: &Value) -> (r: CoreCall)
    ensures
        r@ == (CoreCallView { name: "range"@, args: seq![end@] }),
{
    let r = call_of("range", vec![end]);
    assert(value::views(r.args@) =~= seq![end@]);
    r
}

/// `(range start end)`.
pub fn rt_range2(start: &Value, end: &Value) -> (r: CoreCall)
    ensures
        r@ == (CoreCallView { name: "range"@, args: seq![start@, end@] }),
{
    let r = call_of("range", vec![start, end]);
    assert(value::views(r.args@) =~= seq![start@, end@]);
    r
}

/// `(range start end step)`.
pub fn rt_range3(start: &Value, end: &Value, step: &Value) -> (r: CoreCall)
    ensures
        r@ == (CoreCallView { name: "range"@, args: seq![start@, end@, step@] }),
{
    let r = call_of("range", vec![start, end, step]);
    assert(value::views(r.args@) =~= seq![start@, end@, step@]);
    r
}

/// `(take n coll)`.
pub fn rt_take(n: &Value, coll: &Value) -> (r: CoreCall)
    ensures
        r@ == (CoreCallView { name: "take"@, args: seq![n@, coll@] }),
{
    let r = call_of("take", vec![n, coll]);
    assert(value::views(r.args@) =~= seq![n@, coll@]);
    r
}

/// `(drop n coll)`.
pub fn rt_drop(n: &Value, coll: &Value) -> (r: CoreCall)
    ensures
        r@ == (CoreCallView { name: "drop"@, args: seq![n@, coll@] }),
{
    let r = call_of("drop", vec![n, coll]);
    assert(value::views(r.args@) =~= seq![n@, coll@]);
    r
}

/// `(reverse coll)`.
pub fn rt_reverse(coll: &Value) -> (r: CoreCall)
    ensures
        r@ == (CoreCallView { name: "reverse"@, args: seq![coll@] }),
{
    let r = call_of("reverse", vec![coll]);
    assert(value::views(r.args@) =~= seq![coll@]);
    r
}

/// `(sort coll)`.
pub fn rt_sort(coll: &Value) -> (r: CoreCall)
    ensures
        r@ == (CoreCallView { name: "sort"@, args: seq![coll@] }),
{
    let r = call_of("sort", vec![coll]);
    assert(value::views(r.args@) =~= seq![coll@]);
    r
}

/// `(sort-by keyfn coll)`.
pub fn rt_sort_by(keyfn: &Value, coll: &Value) -> (r: CoreCall)
    ensures
        r@ == (CoreCallView { name: "sort-by"@, args: seq![keyfn@, coll@] }),
{
    let r = call_of("sort-by", vec![keyfn, coll]);
    assert(value::views(r.args@) =~= seq![keyfn@, coll@]);
    r
}

/// `(keys m)`.
pub fn rt_keys(m: &Value) -> (r: CoreCall)
    ensures
        r@ == (CoreCallView { name: "keys"@, args: seq![m@] }),
{
    let r = call_of("keys", vec![m]);
    assert(value::views(r.args@) =~= seq![m@]);
    r
}

/// `(vals m)`.
pub fn rt_vals(m: &Value) -> (r: CoreCall)
    ensures
        r@ == (CoreCallView { name: "vals"@, args: seq![m@] }),
{
    let r = call_of("vals", vec![m]);
    assert(value::views(r.args@) =~= seq![m@]);
    r
}

/// `(update m k f)`.
pub fn rt_update(m: &Value, k: &Value, f: &Value) -> (r: CoreCall)
    ensures
        r@ == (CoreCallView { name: "update"@, args: seq![m@, k@, f@] }),
{
    let r = call_of("update", vec![m, k, f]);
    assert(value::views(r.args@) =~= seq![m@, k@, f@]);
    r
}

/// `(get-in m ks)`.
pub fn rt_get_in(m: &Value, ks: &Value) -> (r: CoreCall)
    ensures
        r@ == (CoreCallView { name: "get-in"@, args: seq![m@, ks@] }),
{
    let r = call_of("get-in", vec![m, ks]);
    assert(value::views(r.args@) =~= seq![m@, ks@]);
    r
}

/// `(assoc-in m ks v)`.
pub fn rt_assoc_in(m: &Value, ks: &Value, v: &Value) -> (r: CoreCall)
    ensures
        r@ == (CoreCallView { name: "assoc-in"@, args: seq![m@, ks@, v@] }),
{
    let r = call_of("assoc-in", vec![m, ks, v]);
    assert(value::views(r.args@) =~= seq![m@, ks@, v@]);
    r
}

/// `(atom v)`.
pub fn rt_atom(v: &Value) -> (r: CoreCall)
    ensures
        r@ == (CoreCallView { name: "atom"@, args: seq![v@] }),
{
    let r = call_of("atom", vec![v]);
    assert(value::views(r.args@) =~= seq![v@]);
    r
}

/// `(juxt & elems)`.
pub fn rt_juxt(elems: &Vec<Value>) -> (r: CoreCall)
    ensures
        r@ == (CoreCallView { name: "juxt"@, args: value::views(elems@) }),
{
    CoreCall { name: "juxt", args: copy_values(elems) }
}

/// `(comp & elems)`.
pub fn rt_comp(elems: &Vec<Value>) -> (r: CoreCall)
    ensures
        r@ == (CoreCallView { name: "comp"@, args: value::views(elems@) }),
{
    CoreCall { name: "comp", args: copy_values(elems) }
}

/// `(partial & elems)`.
pub fn rt_partial(elems: &Vec<Value>) -> (r: CoreCall)
    ensures
        r@ == (CoreCallView { name: "partial"@, args: value::views(elems@) }),
{
    CoreCall { name: "partial", args: copy_values(elems) }
}

/// `(concat & elems)`.
pub fn rt_concat(elems: &Vec<Value>) -> (r: CoreCall)
    ensures
        r@ == (CoreCallView { name: "concat"@, args: value::views(elems@) }),
{
    CoreCall { name: "concat", args: copy_values(elems) }
}

/// `(merge & elems)`.
pub fn rt_merge(elems: &Vec<Value>) -> (r: CoreCall)
    ensures
        r@ == (CoreCallView { name: "merge"@, args: value::views(elems@) }),
{
    CoreCall { name: "merge", args: copy_values(elems) }
}

} // verus!
