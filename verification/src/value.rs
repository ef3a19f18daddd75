//! Runtime values, as plain data.
use vstd::prelude::*;

verus! {

/// A name with an optional namespace.
#[derive(Debug)]
pub struct Name {
    pub ns: Option<String>,
    pub name: String,
}

/// A runtime value.  Floats are held by their bit patterns.
#[derive(Debug)]
pub enum Value {
    Nil,
    Bool(bool),
    Long(i64),
    Double(u64),
    /// An integer of any size, in decimal.
    BigInt(String),
    /// A decimal number of any size, in decimal.
    BigDecimal(String),
    /// A ratio, in decimal.
    Ratio(String),
    Char(char),
    Str(String),
    Keyword(Name),
    Symbol(Name),
    List(Vec<Value>),
    Vector(Vec<Value>),
    /// A map, by its entries; no key occurs twice.
    Dict(Vec<(Value, Value)>),
    /// A set, by its members; none occurs twice.
    HashSet(Vec<Value>),
    /// A sorted set, by its members in their order; none occurs twice.
    SortedSet(Vec<Value>),
    /// A head and the sequence behind it.
    Cons(Box<Value>, Box<Value>),
    /// A lazy sequence, by what it realizes to.
    LazySeq(Box<Value>),
    /// An instance of a record type, with its fields.
    Record(String, Vec<(Value, Value)>),
    LongArray(Vec<i64>),
    IntArray(Vec<i32>),
    ShortArray(Vec<i16>),
    ByteArray(Vec<i8>),
    DoubleArray(Vec<u64>),
    FloatArray(Vec<u32>),
    BooleanArray(Vec<bool>),
    CharArray(Vec<char>),
    ObjectArray(Vec<Value>),
    /// An exception without a structure of its own, by its message.
    Error(String),
    /// The exception of a position outside a collection: the position, and how many values there are.
    OutOfBounds(usize, usize),
    /// A value with its metadata.
    WithMeta(Box<Value>, Box<Value>),
    /// Any other object, by its kind and identity.
    Object(String, u64),
}

/// What a name is.
pub struct NameView {
    pub ns: Option<Seq<char>>,
    pub name: Seq<char>,
}

impl View for Name {
    type V = NameView;

    open spec fn view(&self) -> NameView {
        NameView {
            ns: match self.ns {
                Some(t) => Some(t@),
                None => None,
            },
            name: self.name@,
        }
    }
}

/// What a value is, with texts and lists as sequences.
pub enum ValueView {
    Nil,
    Bool(bool),
    Long(i64),
    Double(u64),
    BigInt(Seq<char>),
    BigDecimal(Seq<char>),
    Ratio(Seq<char>),
    Char(char),
    Str(Seq<char>),
    Keyword(NameView),
    Symbol(NameView),
    List(Seq<ValueView>),
    Vector(Seq<ValueView>),
    Dict(Seq<(ValueView, ValueView)>),
    HashSet(Seq<ValueView>),
    SortedSet(Seq<ValueView>),
    Cons(Box<ValueView>, Box<ValueView>),
    LazySeq(Box<ValueView>),
    Record(Seq<char>, Seq<(ValueView, ValueView)>),
    LongArray(Seq<i64>),
    IntArray(Seq<i32>),
    ShortArray(Seq<i16>),
    ByteArray(Seq<i8>),
    DoubleArray(Seq<u64>),
    FloatArray(Seq<u32>),
    BooleanArray(Seq<bool>),
    CharArray(Seq<char>),
    ObjectArray(Seq<ValueView>),
    Error(Seq<char>),
    OutOfBounds(usize, usize),
    WithMeta(Box<ValueView>, Box<ValueView>),
    Object(Seq<char>, u64),
}

/// What a value is.
pub open spec fn view(v: Value) -> ValueView
    decreases v,
{
    match v {
        Value::Nil => ValueView::Nil,
        Value::Bool(b) => ValueView::Bool(b),
        Value::Long(n) => ValueView::Long(n),
        Value::Double(d) => ValueView::Double(d),
        Value::BigInt(t) => ValueView::BigInt(t@),
        Value::BigDecimal(t) => ValueView::BigDecimal(t@),
        Value::Ratio(t) => ValueView::Ratio(t@),
        Value::Char(c) => ValueView::Char(c),
        Value::Str(t) => ValueView::Str(t@),
        Value::Keyword(n) => ValueView::Keyword(n@),
        Value::Symbol(n) => ValueView::Symbol(n@),
        Value::List(vs) => ValueView::List(views(vs@)),
        Value::Vector(vs) => ValueView::Vector(views(vs@)),
        Value::Dict(ps) => ValueView::Dict(pair_views(ps@)),
        Value::HashSet(vs) => ValueView::HashSet(views(vs@)),
        Value::SortedSet(vs) => ValueView::SortedSet(views(vs@)),
        Value::Cons(h, t) => ValueView::Cons(Box::new(view(*h)), Box::new(view(*t))),
        Value::LazySeq(s) => ValueView::LazySeq(Box::new(view(*s))),
        Value::Record(t, ps) => ValueView::Record(t@, pair_views(ps@)),
        Value::LongArray(a) => ValueView::LongArray(a@),
        Value::IntArray(a) => ValueView::IntArray(a@),
        Value::ShortArray(a) => ValueView::ShortArray(a@),
        Value::ByteArray(a) => ValueView::ByteArray(a@),
        Value::DoubleArray(a) => ValueView::DoubleArray(a@),
        Value::FloatArray(a) => ValueView::FloatArray(a@),
        Value::BooleanArray(a) => ValueView::BooleanArray(a@),
        Value::CharArray(a) => ValueView::CharArray(a@),
        Value::ObjectArray(vs) => ValueView::ObjectArray(views(vs@)),
        Value::Error(t) => ValueView::Error(t@),
        Value::OutOfBounds(i, n) => ValueView::OutOfBounds(i, n),
        Value::WithMeta(x, m) => ValueView::WithMeta(Box::new(view(*x)), Box::new(view(*m))),
        Value::Object(k, id) => ValueView::Object(k@, id),
    }
}

/// What the values of a list are.
pub open spec fn views(vs: Seq<Value>) -> Seq<ValueView>
    decreases vs,
{
    if vs.len() == 0 {
        Seq::empty()
    } else {
        views(vs.drop_last()).push(view(vs.last()))
    }
}

/// What the entries of a map are.
pub open spec fn pair_views(ps: Seq<(Value, Value)>) -> Seq<(ValueView, ValueView)>
    decreases ps,
{
    if ps.len() == 0 {
        Seq::empty()
    } else {
        pair_views(ps.drop_last()).push((view(ps.last().0), view(ps.last().1)))
    }
}

impl View for Value {
    type V = ValueView;

    open spec fn view(&self) -> ValueView {
        view(*self)
    }
}

/// The value at a position of a list is the view of the value there.
pub proof fn views_at(vs: Seq<Value>)
    ensures
        views(vs).len() == vs.len(),
        forall|i: int| 0 <= i < vs.len() ==> #[trigger] views(vs)[i] == view(vs[i]),
    decreases vs.len(),
{
    if vs.len() > 0 {
        views_at(vs.drop_last());
        assert forall|i: int| 0 <= i < vs.len() implies #[trigger] views(vs)[i] == view(vs[i]) by {
            if i < vs.len() - 1 {
                assert(views(vs.drop_last())[i] == view(vs.drop_last()[i]));
            }
        }
    }
}

/// The entry at a position is the view of the entry there.
pub proof fn pair_views_at(ps: Seq<(Value, Value)>)
    ensures
        pair_views(ps).len() == ps.len(),
        forall|i: int| 0 <= i < ps.len() ==> #[trigger] pair_views(ps)[i] == (view(ps[i].0), view(ps[i].1)),
    decreases ps.len(),
{
    if ps.len() > 0 {
        pair_views_at(ps.drop_last());
        assert forall|i: int| 0 <= i < ps.len() implies #[trigger] pair_views(ps)[i] == (view(ps[i].0), view(ps[i].1)) by {
            if i < ps.len() - 1 {
                assert(pair_views(ps.drop_last())[i] == (view(ps.drop_last()[i].0), view(ps.drop_last()[i].1)));
            }
        }
    }
}

/// A value without its metadata.
pub open spec fn bare(v: ValueView) -> ValueView
    decreases v,
{
    match v {
        ValueView::WithMeta(inner, _) => bare(*inner),
        _ => v,
    }
}

/// A value without its metadata.
pub fn bare_value(v: &Value) -> (r: &Value)
    ensures
        r@ == bare(v@),
    decreases v,
{
    match v {
        Value::WithMeta(inner, _) => bare_value(inner),
        _ => v,
    }
}

/// What is behind the last value of a list is the list before it.
pub proof fn views_push(vs: Seq<Value>, v: Value)
    ensures
        views(vs.push(v)) == views(vs).push(view(v)),
{
    assert(vs.push(v).drop_last() =~= vs);
}

/// What is behind the last entry is the entries before it.
pub proof fn pair_views_push(ps: Seq<(Value, Value)>, p: (Value, Value))
    ensures
        pair_views(ps.push(p)) == pair_views(ps).push((view(p.0), view(p.1))),
{
    assert(ps.push(p).drop_last() =~= ps);
}

/// A copy of a name.
pub fn copy_name(n: &Name) -> (r: Name)
    ensures
        r@ == n@,
{
    Name {
        ns: match &n.ns {
            Some(t) => Some(t.clone()),
            None => None,
        },
        name: n.name.clone(),
    }
}

/// A copy of a value.
pub fn copy_value(v: &Value) -> (r: Value)
    ensures
        view(r) == view(*v),
    decreases v, 0nat,
{
    match v {
        Value::Nil => Value::Nil,
        Value::Bool(b) => Value::Bool(*b),
        Value::Long(n) => Value::Long(*n),
        Value::Double(d) => Value::Double(*d),
        Value::BigInt(t) => Value::BigInt(t.clone()),
        Value::BigDecimal(t) => Value::BigDecimal(t.clone()),
        Value::Ratio(t) => Value::Ratio(t.clone()),
        Value::Char(c) => Value::Char(*c),
        Value::Str(t) => Value::Str(t.clone()),
        Value::Keyword(n) => Value::Keyword(copy_name(n)),
        Value::Symbol(n) => Value::Symbol(copy_name(n)),
        Value::List(vs) => Value::List(copy_values(vs)),
        Value::Vector(vs) => Value::Vector(copy_values(vs)),
        Value::Dict(ps) => Value::Dict(copy_pairs(ps)),
        Value::HashSet(vs) => Value::HashSet(copy_values(vs)),
        Value::SortedSet(vs) => Value::SortedSet(copy_values(vs)),
        Value::Cons(h, t) => Value::Cons(Box::new(copy_value(h)), Box::new(copy_value(t))),
        Value::LazySeq(s) => Value::LazySeq(Box::new(copy_value(s))),
        Value::Record(t, ps) => Value::Record(t.clone(), copy_pairs(ps)),
        Value::LongArray(a) => Value::LongArray(a.clone()),
        Value::IntArray(a) => Value::IntArray(a.clone()),
        Value::ShortArray(a) => Value::ShortArray(a.clone()),
        Value::ByteArray(a) => Value::ByteArray(a.clone()),
        Value::DoubleArray(a) => Value::DoubleArray(a.clone()),
        Value::FloatArray(a) => Value::FloatArray(a.clone()),
        Value::BooleanArray(a) => Value::BooleanArray(a.clone()),
        Value::CharArray(a) => Value::CharArray(a.clone()),
        Value::ObjectArray(vs) => Value::ObjectArray(copy_values(vs)),
        Value::Error(t) => Value::Error(t.clone()),
        Value::OutOfBounds(i, n) => Value::OutOfBounds(*i, *n),
        Value::WithMeta(x, m) => Value::WithMeta(Box::new(copy_value(x)), Box::new(copy_value(m))),
        Value::Object(k, id) => Value::Object(k.clone(), *id),
    }
}

/// A copy of a list of values.
pub fn copy_values(vs: &Vec<Value>) -> (r: Vec<Value>)
    ensures
        views(r@) == views(vs@),
        r@.len() == vs@.len(),
    decreases vs@, 0nat,
{
    let mut out: Vec<Value> = Vec::new();
    let mut i: usize = 0;
    assert(views(out@) =~= views(vs@.take(0)));
    while i < vs.len()
        invariant
            i <= vs@.len(),
            out@.len() == i,
            views(out@) == views(vs@.take(i as int)),
        decreases vs@.len() - i,
    {
        let v = copy_value(&vs[i]);
        proof {
            views_push(out@, v);
            views_push(vs@.take(i as int), vs@[i as int]);
            assert(vs@.take(i + 1) =~= vs@.take(i as int).push(vs@[i as int]));
        }
        out.push(v);
        i += 1;
    }
    assert(vs@.take(vs@.len() as int) =~= vs@);
    out
}

/// A copy of a list of entries.
pub fn copy_pairs(ps: &Vec<(Value, Value)>) -> (r: Vec<(Value, Value)>)
    ensures
        pair_views(r@) == pair_views(ps@),
        r@.len() == ps@.len(),
    decreases ps@, 0nat,
{
    let mut out: Vec<(Value, Value)> = Vec::new();
    let mut i: usize = 0;
    assert(pair_views(out@) =~= pair_views(ps@.take(0)));
    while i < ps.len()
        invariant
            i <= ps@.len(),
            out@.len() == i,
            pair_views(out@) == pair_views(ps@.take(i as int)),
        decreases ps@.len() - i,
    {
        let k = copy_value(&ps[i].0);
        let v = copy_value(&ps[i].1);
        proof {
            pair_views_push(out@, (k, v));
            pair_views_push(ps@.take(i as int), ps@[i as int]);
            assert(ps@.take(i + 1) =~= ps@.take(i as int).push(ps@[i as int]));
        }
        out.push((k, v));
        i += 1;
    }
    assert(ps@.take(ps@.len() as int) =~= ps@);
    out
}

} // verus!
