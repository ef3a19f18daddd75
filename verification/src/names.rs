//! The names that known functions are called by.
use crate::anf;
use crate::ir::KnownFn;
use crate::text;
use vstd::prelude::*;
use vstd::string::*;

verus! {

/// A known function is called by a name, without its namespace.
pub open spec fn is_name_of(kf: KnownFn, name: Seq<char>) -> bool {
    match kf {
        KnownFn::Vector => name == "vector"@,
        KnownFn::HashMap => name == "hash-map"@,
        KnownFn::HashSet => name == "hash-set"@,
        KnownFn::List => name == "list"@,
        KnownFn::Assoc => name == "assoc"@,
        KnownFn::Dissoc => name == "dissoc"@,
        KnownFn::Conj => name == "conj"@,
        KnownFn::Disj => name == "disj"@,
        KnownFn::Get => name == "get"@,
        KnownFn::Nth => name == "nth"@,
        KnownFn::Count => name == "count"@,
        KnownFn::Contains => name == "contains?"@,
        KnownFn::Transient => name == "transient"@,
        KnownFn::AssocBang => name == "assoc!"@,
        KnownFn::ConjBang => name == "conj!"@,
        KnownFn::PersistentBang => name == "persistent!"@,
        KnownFn::First => name == "first"@,
        KnownFn::Rest => name == "rest"@,
        KnownFn::Next => name == "next"@,
        KnownFn::Cons => name == "cons"@,
        KnownFn::ToSeq => name == "seq"@,
        KnownFn::LazySeq => name == "lazy-seq"@,
        KnownFn::Add => name == "+"@,
        KnownFn::Sub => name == "-"@,
        KnownFn::Mul => name == "*"@,
        KnownFn::Div => name == "/"@,
        KnownFn::Rem => name == "rem"@ || name == "mod"@,
        KnownFn::Eq => name == "="@,
        KnownFn::Lt => name == "<"@,
        KnownFn::Gt => name == ">"@,
        KnownFn::Lte => name == "<="@,
        KnownFn::Gte => name == ">="@,
        KnownFn::IsNil => name == "nil?"@,
        KnownFn::IsSeq => name == "seq?"@,
        KnownFn::IsVector => name == "vector?"@,
        KnownFn::IsMap => name == "map?"@,
        KnownFn::Identical => name == "identical?"@,
        KnownFn::Str => name == "str"@,
        KnownFn::Deref => name == "deref"@,
        KnownFn::Println => name == "println"@,
        KnownFn::Pr => name == "pr"@,
        KnownFn::Apply => name == "apply"@,
        _ => false,
    }
}

/// The names are told apart.
#[verifier::rlimit(60)]
proof fn names_differ()
    ensures
        "vector"@.len() == 6,
        "hash-map"@.len() == 8,
        "hash-set"@.len() == 8,
        "list"@.len() == 4,
        "assoc"@.len() == 5,
        "dissoc"@.len() == 6,
        "conj"@.len() == 4,
        "disj"@.len() == 4,
        "get"@.len() == 3,
        "nth"@.len() == 3,
        "count"@.len() == 5,
        "contains?"@.len() == 9,
        "transient"@.len() == 9,
        "assoc!"@.len() == 6,
        "conj!"@.len() == 5,
        "persistent!"@.len() == 11,
        "first"@.len() == 5,
        "rest"@.len() == 4,
        "next"@.len() == 4,
        "cons"@.len() == 4,
        "seq"@.len() == 3,
        "lazy-seq"@.len() == 8,
        "+"@.len() == 1,
        "-"@.len() == 1,
        "*"@.len() == 1,
        "/"@.len() == 1,
        "rem"@.len() == 3,
        "mod"@.len() == 3,
        "="@.len() == 1,
        "<"@.len() == 1,
        ">"@.len() == 1,
        "<="@.len() == 2,
        ">="@.len() == 2,
        "nil?"@.len() == 4,
        "seq?"@.len() == 4,
        "vector?"@.len() == 7,
        "map?"@.len() == 4,
        "identical?"@.len() == 10,
        "str"@.len() == 3,
        "deref"@.len() == 5,
        "println"@.len() == 7,
        "pr"@.len() == 2,
        "apply"@.len() == 5,
        "hash-set"@ != "hash-map"@,
        "dissoc"@ != "vector"@,
        "conj"@ != "list"@,
        "disj"@ != "list"@,
        "disj"@ != "conj"@,
        "nth"@ != "get"@,
        "count"@ != "assoc"@,
        "transient"@ != "contains?"@,
        "assoc!"@ != "vector"@,
        "assoc!"@ != "dissoc"@,
        "conj!"@ != "assoc"@,
        "conj!"@ != "count"@,
        "first"@ != "assoc"@,
        "first"@ != "count"@,
        "first"@ != "conj!"@,
        "rest"@ != "list"@,
        "rest"@ != "conj"@,
        "rest"@ != "disj"@,
        "next"@ != "list"@,
        "next"@ != "conj"@,
        "next"@ != "disj"@,
        "next"@ != "rest"@,
        "cons"@ != "list"@,
        "cons"@ != "conj"@,
        "cons"@ != "disj"@,
        "cons"@ != "rest"@,
        "cons"@ != "next"@,
        "seq"@ != "get"@,
        "seq"@ != "nth"@,
        "lazy-seq"@ != "hash-map"@,
        "lazy-seq"@ != "hash-set"@,
        "-"@ != "+"@,
        "*"@ != "+"@,
        "*"@ != "-"@,
        "/"@ != "+"@,
        "/"@ != "-"@,
        "/"@ != "*"@,
        "rem"@ != "get"@,
        "rem"@ != "nth"@,
        "rem"@ != "seq"@,
        "mod"@ != "get"@,
        "mod"@ != "nth"@,
        "mod"@ != "seq"@,
        "mod"@ != "rem"@,
        "="@ != "+"@,
        "="@ != "-"@,
        "="@ != "*"@,
        "="@ != "/"@,
        "<"@ != "+"@,
        "<"@ != "-"@,
        "<"@ != "*"@,
        "<"@ != "/"@,
        "<"@ != "="@,
        ">"@ != "+"@,
        ">"@ != "-"@,
        ">"@ != "*"@,
        ">"@ != "/"@,
        ">"@ != "="@,
        ">"@ != "<"@,
        ">="@ != "<="@,
        "nil?"@ != "list"@,
        "nil?"@ != "conj"@,
        "nil?"@ != "disj"@,
        "nil?"@ != "rest"@,
        "nil?"@ != "next"@,
        "nil?"@ != "cons"@,
        "seq?"@ != "list"@,
        "seq?"@ != "conj"@,
        "seq?"@ != "disj"@,
        "seq?"@ != "rest"@,
        "seq?"@ != "next"@,
        "seq?"@ != "cons"@,
        "seq?"@ != "nil?"@,
        "map?"@ != "list"@,
        "map?"@ != "conj"@,
        "map?"@ != "disj"@,
        "map?"@ != "rest"@,
        "map?"@ != "next"@,
        "map?"@ != "cons"@,
        "map?"@ != "nil?"@,
        "map?"@ != "seq?"@,
        "str"@ != "get"@,
        "str"@ != "nth"@,
        "str"@ != "seq"@,
        "str"@ != "rem"@,
        "str"@ != "mod"@,
        "deref"@ != "assoc"@,
        "deref"@ != "count"@,
        "deref"@ != "conj!"@,
        "deref"@ != "first"@,
        "println"@ != "vector?"@,
        "pr"@ != "<="@,
        "pr"@ != ">="@,
        "apply"@ != "assoc"@,
        "apply"@ != "count"@,
        "apply"@ != "conj!"@,
        "apply"@ != "first"@,
        "apply"@ != "deref"@,
{
    reveal_strlit("vector");
    reveal_strlit("hash-map");
    reveal_strlit("hash-set");
    reveal_strlit("list");
    reveal_strlit("assoc");
    reveal_strlit("dissoc");
    reveal_strlit("conj");
    reveal_strlit("disj");
    reveal_strlit("get");
    reveal_strlit("nth");
    reveal_strlit("count");
    reveal_strlit("contains?");
    reveal_strlit("transient");
    reveal_strlit("assoc!");
    reveal_strlit("conj!");
    reveal_strlit("persistent!");
    reveal_strlit("first");
    reveal_strlit("rest");
    reveal_strlit("next");
    reveal_strlit("cons");
    reveal_strlit("seq");
    reveal_strlit("lazy-seq");
    reveal_strlit("+");
    reveal_strlit("-");
    reveal_strlit("*");
    reveal_strlit("/");
    reveal_strlit("rem");
    reveal_strlit("mod");
    reveal_strlit("=");
    reveal_strlit("<");
    reveal_strlit(">");
    reveal_strlit("<=");
    reveal_strlit(">=");
    reveal_strlit("nil?");
    reveal_strlit("seq?");
    reveal_strlit("vector?");
    reveal_strlit("map?");
    reveal_strlit("identical?");
    reveal_strlit("str");
    reveal_strlit("deref");
    reveal_strlit("println");
    reveal_strlit("pr");
    reveal_strlit("apply");
    assert("hash-set"@[5] != "hash-map"@[5]);
    assert("dissoc"@[0] != "vector"@[0]);
    assert("conj"@[0] != "list"@[0]);
    assert("disj"@[0] != "list"@[0]);
    assert("disj"@[0] != "conj"@[0]);
    assert("nth"@[0] != "get"@[0]);
    assert("count"@[0] != "assoc"@[0]);
    assert("transient"@[0] != "contains?"@[0]);
    assert("assoc!"@[0] != "vector"@[0]);
    assert("assoc!"@[0] != "dissoc"@[0]);
    assert("conj!"@[0] != "assoc"@[0]);
    assert("conj!"@[2] != "count"@[2]);
    assert("first"@[0] != "assoc"@[0]);
    assert("first"@[0] != "count"@[0]);
    assert("first"@[0] != "conj!"@[0]);
    assert("rest"@[0] != "list"@[0]);
    assert("rest"@[0] != "conj"@[0]);
    assert("rest"@[0] != "disj"@[0]);
    assert("next"@[0] != "list"@[0]);
    assert("next"@[0] != "conj"@[0]);
    assert("next"@[0] != "disj"@[0]);
    assert("next"@[0] != "rest"@[0]);
    assert("cons"@[0] != "list"@[0]);
    assert("cons"@[3] != "conj"@[3]);
    assert("cons"@[0] != "disj"@[0]);
    assert("cons"@[0] != "rest"@[0]);
    assert("cons"@[0] != "next"@[0]);
    assert("seq"@[0] != "get"@[0]);
    assert("seq"@[0] != "nth"@[0]);
    assert("lazy-seq"@[0] != "hash-map"@[0]);
    assert("lazy-seq"@[0] != "hash-set"@[0]);
    assert("-"@[0] != "+"@[0]);
    assert("*"@[0] != "+"@[0]);
    assert("*"@[0] != "-"@[0]);
    assert("/"@[0] != "+"@[0]);
    assert("/"@[0] != "-"@[0]);
    assert("/"@[0] != "*"@[0]);
    assert("rem"@[0] != "get"@[0]);
    assert("rem"@[0] != "nth"@[0]);
    assert("rem"@[0] != "seq"@[0]);
    assert("mod"@[0] != "get"@[0]);
    assert("mod"@[0] != "nth"@[0]);
    assert("mod"@[0] != "seq"@[0]);
    assert("mod"@[0] != "rem"@[0]);
    assert("="@[0] != "+"@[0]);
    assert("="@[0] != "-"@[0]);
    assert("="@[0] != "*"@[0]);
    assert("="@[0] != "/"@[0]);
    assert("<"@[0] != "+"@[0]);
    assert("<"@[0] != "-"@[0]);
    assert("<"@[0] != "*"@[0]);
    assert("<"@[0] != "/"@[0]);
    assert("<"@[0] != "="@[0]);
    assert(">"@[0] != "+"@[0]);
    assert(">"@[0] != "-"@[0]);
    assert(">"@[0] != "*"@[0]);
    assert(">"@[0] != "/"@[0]);
    assert(">"@[0] != "="@[0]);
    assert(">"@[0] != "<"@[0]);
    assert(">="@[0] != "<="@[0]);
    assert("nil?"@[0] != "list"@[0]);
    assert("nil?"@[0] != "conj"@[0]);
    assert("nil?"@[0] != "disj"@[0]);
    assert("nil?"@[0] != "rest"@[0]);
    assert("nil?"@[1] != "next"@[1]);
    assert("nil?"@[0] != "cons"@[0]);
    assert("seq?"@[0] != "list"@[0]);
    assert("seq?"@[0] != "conj"@[0]);
    assert("seq?"@[0] != "disj"@[0]);
    assert("seq?"@[0] != "rest"@[0]);
    assert("seq?"@[0] != "next"@[0]);
    assert("seq?"@[0] != "cons"@[0]);
    assert("seq?"@[0] != "nil?"@[0]);
    assert("map?"@[0] != "list"@[0]);
    assert("map?"@[0] != "conj"@[0]);
    assert("map?"@[0] != "disj"@[0]);
    assert("map?"@[0] != "rest"@[0]);
    assert("map?"@[0] != "next"@[0]);
    assert("map?"@[0] != "cons"@[0]);
    assert("map?"@[0] != "nil?"@[0]);
    assert("map?"@[0] != "seq?"@[0]);
    assert("str"@[0] != "get"@[0]);
    assert("str"@[0] != "nth"@[0]);
    assert("str"@[1] != "seq"@[1]);
    assert("str"@[0] != "rem"@[0]);
    assert("str"@[0] != "mod"@[0]);
    assert("deref"@[0] != "assoc"@[0]);
    assert("deref"@[0] != "count"@[0]);
    assert("deref"@[0] != "conj!"@[0]);
    assert("deref"@[0] != "first"@[0]);
    assert("println"@[0] != "vector?"@[0]);
    assert("pr"@[0] != "<="@[0]);
    assert("pr"@[0] != ">="@[0]);
    assert("apply"@[1] != "assoc"@[1]);
    assert("apply"@[0] != "count"@[0]);
    assert("apply"@[0] != "conj!"@[0]);
    assert("apply"@[0] != "first"@[0]);
    assert("apply"@[0] != "deref"@[0]);
}

/// A name is that of a known function exactly where the function is called by it, whatever namespace is
/// in front of it.
#[verifier::rlimit(60)]
pub proof fn known_functions_have_their_names(name: Seq<char>, kf: KnownFn)
    ensures
        anf::known_fn(name) == Some(kf) <==> is_name_of(kf, text::after_last(name, '/')),
{
    names_differ();
}

} // verus!
