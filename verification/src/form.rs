//! Source forms, as the reader yields them.
use crate::ir::{Span, SpanView};
use vstd::prelude::*;

verus! {

/// A form with its place in the source.
#[derive(Debug)]
pub struct Form {
    pub kind: FormKind,
    pub span: Span,
}

/// What a form is.
#[derive(Debug)]
pub enum FormKind {
    Nil,
    Bool(bool),
    Int(i64),
    BigInt(String),
    /// A float, by its bit pattern.
    Float(u64),
    BigDecimal(String),
    Ratio(String),
    /// A float with a name of its own, such as an infinity, by its bit pattern.
    Symbolic(u64),
    Str(String),
    Char(char),
    Regex(String),
    Keyword(String),
    AutoKeyword(String),
    Symbol(String),
    List(Vec<Form>),
    Vector(Vec<Form>),
    /// A map literal: keys and values in turn.
    Dict(Vec<Form>),
    /// A set literal.
    HashSet(Vec<Form>),
    /// `#(...)`
    AnonFn(Vec<Form>),
    Quote(Box<Form>),
    SyntaxQuote(Box<Form>),
    Unquote(Box<Form>),
    UnquoteSplice(Box<Form>),
    Deref(Box<Form>),
    /// `#'name`
    Var(Box<Form>),
    /// A form with metadata in front of it.
    Meta(Box<Form>, Box<Form>),
    TaggedLiteral(String, Box<Form>),
    /// A reader conditional: whether it splices, and its clauses, features and forms in turn.  What it
    /// comes to is the reader's to tell: the position of the clause that is taken, if there is one, and
    /// the forms that take its place among others.
    ReaderCond(bool, Vec<Form>, Option<usize>, Vec<Form>),
}

/// A form, with texts and lists as sequences.
pub struct FormView {
    pub kind: KindView,
    pub span: SpanView,
}

/// What a form is, with texts and lists as sequences.
pub enum KindView {
    Nil,
    Bool(bool),
    Int(i64),
    BigInt(Seq<char>),
    Float(u64),
    BigDecimal(Seq<char>),
    Ratio(Seq<char>),
    Symbolic(u64),
    Str(Seq<char>),
    Char(char),
    Regex(Seq<char>),
    Keyword(Seq<char>),
    AutoKeyword(Seq<char>),
    Symbol(Seq<char>),
    List(Seq<FormView>),
    Vector(Seq<FormView>),
    Dict(Seq<FormView>),
    HashSet(Seq<FormView>),
    AnonFn(Seq<FormView>),
    Quote(Box<FormView>),
    SyntaxQuote(Box<FormView>),
    Unquote(Box<FormView>),
    UnquoteSplice(Box<FormView>),
    Deref(Box<FormView>),
    Var(Box<FormView>),
    Meta(Box<FormView>, Box<FormView>),
    TaggedLiteral(Seq<char>, Box<FormView>),
    ReaderCond(bool, Seq<FormView>, Option<usize>, Seq<FormView>),
}

/// A form, with texts and lists as sequences.
pub open spec fn form_view(f: Form) -> FormView
    decreases f,
{
    FormView { kind: kind_view(f.kind), span: f.span@ }
}

/// What a form is, with texts and lists as sequences.
pub open spec fn kind_view(k: FormKind) -> KindView
    decreases k,
{
    match k {
        FormKind::Nil => KindView::Nil,
        FormKind::Bool(a) => KindView::Bool(a),
        FormKind::Int(a) => KindView::Int(a),
        FormKind::BigInt(a) => KindView::BigInt(a@),
        FormKind::Float(a) => KindView::Float(a),
        FormKind::BigDecimal(a) => KindView::BigDecimal(a@),
        FormKind::Ratio(a) => KindView::Ratio(a@),
        FormKind::Symbolic(a) => KindView::Symbolic(a),
        FormKind::Str(a) => KindView::Str(a@),
        FormKind::Char(a) => KindView::Char(a),
        FormKind::Regex(a) => KindView::Regex(a@),
        FormKind::Keyword(a) => KindView::Keyword(a@),
        FormKind::AutoKeyword(a) => KindView::AutoKeyword(a@),
        FormKind::Symbol(a) => KindView::Symbol(a@),
        FormKind::List(a) => KindView::List(forms_view(a@)),
        FormKind::Vector(a) => KindView::Vector(forms_view(a@)),
        FormKind::Dict(a) => KindView::Dict(forms_view(a@)),
        FormKind::HashSet(a) => KindView::HashSet(forms_view(a@)),
        FormKind::AnonFn(a) => KindView::AnonFn(forms_view(a@)),
        FormKind::Quote(a) => KindView::Quote(Box::new(form_view(*a))),
        FormKind::SyntaxQuote(a) => KindView::SyntaxQuote(Box::new(form_view(*a))),
        FormKind::Unquote(a) => KindView::Unquote(Box::new(form_view(*a))),
        FormKind::UnquoteSplice(a) => KindView::UnquoteSplice(Box::new(form_view(*a))),
        FormKind::Deref(a) => KindView::Deref(Box::new(form_view(*a))),
        FormKind::Var(a) => KindView::Var(Box::new(form_view(*a))),
        FormKind::Meta(a, b) => KindView::Meta(Box::new(form_view(*a)), Box::new(form_view(*b))),
        FormKind::TaggedLiteral(a, b) => KindView::TaggedLiteral(a@, Box::new(form_view(*b))),
        FormKind::ReaderCond(a, b, c, d) => KindView::ReaderCond(a, forms_view(b@), c, forms_view(d@)),
    }
}

/// A list of forms.
pub open spec fn forms_view(fs: Seq<Form>) -> Seq<FormView>
    decreases fs,
{
    if fs.len() == 0 {
        Seq::empty()
    } else {
        forms_view(fs.drop_last()).push(form_view(fs.last()))
    }
}

/// The form at a position of a list is the view of the form there.
pub proof fn forms_view_at(fs: Seq<Form>)
    ensures
        forms_view(fs).len() == fs.len(),
        forall|i: int| 0 <= i < fs.len() ==> #[trigger] forms_view(fs)[i] == form_view(fs[i]),
    decreases fs.len(),
{
    if fs.len() > 0 {
        forms_view_at(fs.drop_last());
        assert forall|i: int| 0 <= i < fs.len() implies #[trigger] forms_view(fs)[i] == form_view(fs[i]) by {
            if i < fs.len() - 1 {
                assert(forms_view(fs.drop_last())[i] == form_view(fs.drop_last()[i]));
            }
        }
    }
}

/// A list with one more form.
pub proof fn forms_view_push(fs: Seq<Form>, f: Form)
    ensures
        forms_view(fs.push(f)) == forms_view(fs).push(form_view(f)),
{
    assert(fs.push(f).drop_last() =~= fs);
}

/// A copy of a place in the source.
pub fn copy_span(s: &Span) -> (r: Span)
    ensures
        r@ == s@,
{
    Span { file: s.file.clone(), start: s.start, end: s.end, line: s.line, col: s.col }
}

/// A copy of a form.
pub fn copy_form(f: &Form) -> (r: Form)
    ensures
        form_view(r) == form_view(*f),
    decreases f, 0nat,
{
    Form { kind: copy_kind(&f.kind), span: copy_span(&f.span) }
}

/// A copy of what a form is.
pub fn copy_kind(k: &FormKind) -> (r: FormKind)
    ensures
        kind_view(r) == kind_view(*k),
    decreases k, 0nat,
{
    match k {
        FormKind::Nil => FormKind::Nil,
        FormKind::Bool(a) => FormKind::Bool(*a),
        FormKind::Int(a) => FormKind::Int(*a),
        FormKind::BigInt(a) => FormKind::BigInt(a.clone()),
        FormKind::Float(a) => FormKind::Float(*a),
        FormKind::BigDecimal(a) => FormKind::BigDecimal(a.clone()),
        FormKind::Ratio(a) => FormKind::Ratio(a.clone()),
        FormKind::Symbolic(a) => FormKind::Symbolic(*a),
        FormKind::Str(a) => FormKind::Str(a.clone()),
        FormKind::Char(a) => FormKind::Char(*a),
        FormKind::Regex(a) => FormKind::Regex(a.clone()),
        FormKind::Keyword(a) => FormKind::Keyword(a.clone()),
        FormKind::AutoKeyword(a) => FormKind::AutoKeyword(a.clone()),
        FormKind::Symbol(a) => FormKind::Symbol(a.clone()),
        FormKind::List(a) => {
            assert(a@.take(a@.len() as int) =~= a@);
            FormKind::List(copy_forms(a, a.len()))
        },
        FormKind::Vector(a) => {
            assert(a@.take(a@.len() as int) =~= a@);
            FormKind::Vector(copy_forms(a, a.len()))
        },
        FormKind::Dict(a) => {
            assert(a@.take(a@.len() as int) =~= a@);
            FormKind::Dict(copy_forms(a, a.len()))
        },
        FormKind::HashSet(a) => {
            assert(a@.take(a@.len() as int) =~= a@);
            FormKind::HashSet(copy_forms(a, a.len()))
        },
        FormKind::AnonFn(a) => {
            assert(a@.take(a@.len() as int) =~= a@);
            FormKind::AnonFn(copy_forms(a, a.len()))
        },
        FormKind::Quote(a) => FormKind::Quote(Box::new(copy_form(a))),
        FormKind::SyntaxQuote(a) => FormKind::SyntaxQuote(Box::new(copy_form(a))),
        FormKind::Unquote(a) => FormKind::Unquote(Box::new(copy_form(a))),
        FormKind::UnquoteSplice(a) => FormKind::UnquoteSplice(Box::new(copy_form(a))),
        FormKind::Deref(a) => FormKind::Deref(Box::new(copy_form(a))),
        FormKind::Var(a) => FormKind::Var(Box::new(copy_form(a))),
        FormKind::Meta(a, b) => FormKind::Meta(Box::new(copy_form(a)), Box::new(copy_form(b))),
        FormKind::TaggedLiteral(a, b) => FormKind::TaggedLiteral(a.clone(), Box::new(copy_form(b))),
        FormKind::ReaderCond(a, b, c, d) => {
            assert(b@.take(b@.len() as int) =~= b@);
            assert(d@.take(d@.len() as int) =~= d@);
            FormKind::ReaderCond(*a, copy_forms(b, b.len()), *c, copy_forms(d, d.len()))
        },
    }
}

/// A copy of the first `n` forms.
pub fn copy_forms(fs: &Vec<Form>, n: usize) -> (r: Vec<Form>)
    requires
        n <= fs@.len(),
    ensures
        forms_view(r@) == forms_view(fs@.take(n as int)),
        r@.len() == n,
    decreases fs@, n,
{
    if n == 0 {
        let none: Vec<Form> = Vec::new();
        assert(forms_view(none@) =~= forms_view(fs@.take(0)));
        return none;
    }
    let mut out = copy_forms(fs, n - 1);
    proof {
        assert(fs@.take(n as int).drop_last() =~= fs@.take(n - 1));
        forms_view_push(out@, fs@[n - 1]);
    }
    let ghost before = out@;
    let f = copy_form(&fs[n - 1]);
    out.push(f);
    proof {
        assert(out@.drop_last() =~= before);
    }
    out
}

} // verus!
