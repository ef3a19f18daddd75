//! Global variables: where a name is looked up.
use crate::rt_abi::calls::{rt_throw, Pending};
use crate::text::same;
use crate::value;
use crate::value::{copy_value, Value, ValueView};
use vstd::prelude::*;
use vstd::string::*;

verus! {

/// A variable in a namespace.
#[derive(Debug)]
pub struct Binding {
    pub ns: String,
    pub name: String,
    pub value: Value,
}

/// An alias in a namespace.
#[derive(Debug)]
pub struct Alias {
    pub current: String,
    pub alias: String,
    pub ns: String,
}

/// A variable of another namespace that a namespace refers to by a name of its own.
#[derive(Debug)]
pub struct Refer {
    pub current: String,
    pub name: String,
    pub ns: String,
    pub target: String,
}

/// What is defined: variables, what namespaces refer to, aliases, and the namespaces that have been
/// loaded.
#[derive(Debug)]
pub struct Globals {
    pub bindings: Vec<Binding>,
    pub refers: Vec<Refer>,
    pub aliases: Vec<Alias>,
    pub loaded: Vec<String>,
}

/// The position, from `i` on, of a variable.
pub open spec fn binding_at(bs: Seq<Binding>, ns: Seq<char>, name: Seq<char>, i: int) -> int
    decreases bs.len() - i,
{
    if i < 0 || i >= bs.len() {
        bs.len() as int
    } else if bs[i].ns@ == ns && bs[i].name@ == name {
        i
    } else {
        binding_at(bs, ns, name, i + 1)
    }
}

/// The namespace, from entry `i` on, that an alias stands for.
pub open spec fn alias_target(al: Seq<Alias>, current: Seq<char>, alias: Seq<char>, i: int) -> Option<Seq<char>>
    decreases al.len() - i,
{
    if i < 0 || i >= al.len() {
        None
    } else if al[i].current@ == current && al[i].alias@ == alias {
        Some(al[i].ns@)
    } else {
        alias_target(al, current, alias, i + 1)
    }
}

/// The position, from `i` on, of what a namespace refers to by a name.
pub open spec fn refer_at(rs: Seq<Refer>, current: Seq<char>, name: Seq<char>, i: int) -> int
    decreases rs.len() - i,
{
    if i < 0 || i >= rs.len() {
        rs.len() as int
    } else if rs[i].current@ == current && rs[i].name@ == name {
        i
    } else {
        refer_at(rs, current, name, i + 1)
    }
}

fn find_refer(rs: &Vec<Refer>, current: &str, name: &str) -> (r: usize)
    ensures
        r == refer_at(rs@, current@, name@, 0),
        r <= rs@.len(),
{
    let mut i: usize = 0;
    while i < rs.len()
        invariant
            i <= rs@.len(),
            refer_at(rs@, current@, name@, 0) == refer_at(rs@, current@, name@, i as int),
        decreases rs@.len() - i,
    {
        if same(rs[i].current.as_str(), current) && same(rs[i].name.as_str(), name) {
            return i;
        }
        i += 1;
    }
    i
}

fn find_binding(bs: &Vec<Binding>, ns: &str, name: &str) -> (r: usize)
    ensures
        r == binding_at(bs@, ns@, name@, 0),
        r <= bs@.len(),
{
    let mut i: usize = 0;
    while i < bs.len()
        invariant
            i <= bs@.len(),
            binding_at(bs@, ns@, name@, 0) == binding_at(bs@, ns@, name@, i as int),
        decreases bs@.len() - i,
    {
        if same(bs[i].ns.as_str(), ns) && same(bs[i].name.as_str(), name) {
            return i;
        }
        i += 1;
    }
    i
}

fn find_alias<'a>(al: &'a Vec<Alias>, current: &str, alias: &str) -> (r: Option<&'a String>)
    ensures
        match r {
            Some(ns) => alias_target(al@, current@, alias@, 0) == Some(ns@),
            None => alias_target(al@, current@, alias@, 0) is None,
        },
{
    let mut i: usize = 0;
    while i < al.len()
        invariant
            i <= al@.len(),
            alias_target(al@, current@, alias@, 0) == alias_target(al@, current@, alias@, i as int),
        decreases al@.len() - i,
    {
        if same(al[i].current.as_str(), current) && same(al[i].alias.as_str(), alias) {
            return Some(&al[i].ns);
        }
        i += 1;
    }
    None
}

/// The position of the variable that a name stands for in a namespace: one of its own, else one that
/// it refers to.
pub open spec fn found_in(g: Globals, ns: Seq<char>, name: Seq<char>) -> Option<int> {
    let own = binding_at(g.bindings@, ns, name, 0);
    let at = refer_at(g.refers@, ns, name, 0);
    if own < g.bindings@.len() {
        Some(own)
    } else if 0 <= at < g.refers@.len() {
        let there = binding_at(g.bindings@, g.refers@[at].ns@, g.refers@[at].target@, 0);
        if there < g.bindings@.len() { Some(there) } else { None }
    } else {
        None
    }
}

/// The position of the variable that a name stands for in a namespace.
fn find_in(g: &Globals, ns: &str, name: &str) -> (r: Option<usize>)
    ensures
        match r {
            Some(i) => found_in(*g, ns@, name@) == Some(i as int) && i < g.bindings@.len(),
            None => found_in(*g, ns@, name@) is None,
        },
{
    let own: usize = find_binding(&g.bindings, ns, name);
    if own < g.bindings.len() {
        return Some(own);
    }
    let at: usize = find_refer(&g.refers, ns, name);
    if at < g.refers.len() {
        let there: usize = find_binding(&g.bindings, g.refers[at].ns.as_str(), g.refers[at].target.as_str());
        if there < g.bindings.len() { Some(there) } else { None }
    } else {
        None
    }
}

/// The position of the variable that a name refers to: in the namespace that is named, else in the
/// one that the name is an alias for.
pub open spec fn resolved(g: Globals, current: Seq<char>, ns: Seq<char>, name: Seq<char>) -> Option<int> {
    match found_in(g, ns, name) {
        Some(i) => Some(i),
        None => match alias_target(g.aliases@, current, ns, 0) {
            Some(target) => found_in(g, target, name),
            None => None,
        },
    }
}

/// The position of the variable that a name refers to.
pub fn rt_load_var(g: &Globals, current_ns: &str, ns: &str, name: &str) -> (r: Option<usize>)
    ensures
        match r {
            Some(i) => resolved(*g, current_ns@, ns@, name@) == Some(i as int) && i < g.bindings@.len(),
            None => resolved(*g, current_ns@, ns@, name@) is None,
        },
{
    match find_in(g, ns, name) {
        Some(i) => Some(i),
        None => match find_alias(&g.aliases, current_ns, ns) {
            Some(target) => find_in(g, target.as_str(), name),
            None => None,
        },
    }
}

/// What loading a variable comes to.
#[derive(Debug)]
pub enum Loaded {
    Value(Value),
    /// The name is pinned: its base and the commit.
    Pinned(String, String),
    /// The namespace is pinned and has not been loaded: its base and the commit.  Once it is loaded
    /// the name is looked up again.
    Load(String, String),
    /// There is no such variable, and the code goes on with nil.
    Missing,
}

fn is_loaded(g: &Globals, ns: &str) -> (r: bool)
    ensures
        r == (exists|i: int| 0 <= i < g.loaded@.len() && (#[trigger] g.loaded@[i])@ == ns@),
{
    let mut i: usize = 0;
    while i < g.loaded.len()
        invariant
            i <= g.loaded@.len(),
            forall|k: int| 0 <= k < i ==> (#[trigger] g.loaded@[k])@ != ns@,
        decreases g.loaded@.len() - i,
    {
        if same(g.loaded[i].as_str(), ns) {
            return true;
        }
        i += 1;
    }
    false
}

/// A namespace has been loaded.
pub open spec fn loaded_before(g: Globals, ns: Seq<char>) -> bool {
    exists|i: int| 0 <= i < g.loaded@.len() && (#[trigger] g.loaded@[i])@ == ns
}

/// What loading a variable comes to: a pinned name is resolved by its commit; else the variable is
/// looked up, and a pinned namespace that is not there yet is loaded first.  Whether the name and the
/// namespace are pinned is the reader's to tell, which splits them into a base and a commit.
pub fn rt_load_global(g: &Globals, current_ns: &str, ns: &str, name: &str, name_pin: Option<(String, String)>, ns_pin: Option<(String, String)>) -> (r: Loaded)
    ensures
        match r {
            Loaded::Pinned(base, commit) => name_pin == Some((base, commit)),
            Loaded::Value(v) => {
                &&& name_pin is None
                &&& resolved(*g, current_ns@, ns@, name@) is Some
                &&& v@ == g.bindings@[resolved(*g, current_ns@, ns@, name@)->0].value@
            },
            Loaded::Load(base, commit) => {
                &&& name_pin is None
                &&& resolved(*g, current_ns@, ns@, name@) is None
                &&& ns_pin == Some((base, commit))
                &&& !loaded_before(*g, ns@)
            },
            Loaded::Missing => {
                &&& name_pin is None
                &&& resolved(*g, current_ns@, ns@, name@) is None
                &&& ns_pin is None || loaded_before(*g, ns@)
            },
        },
{
    match name_pin {
        Some((base, commit)) => return Loaded::Pinned(base, commit),
        None => {},
    }
    match rt_load_var(g, current_ns, ns, name) {
        Some(i) => return Loaded::Value(copy_value(&g.bindings[i].value)),
        None => {},
    }
    match ns_pin {
        Some((base, commit)) => if is_loaded(g, ns) { Loaded::Missing } else { Loaded::Load(base, commit) },
        None => Loaded::Missing,
    }
}

/// What a pinned name comes to, given what the resolver answered: its value, or nil.  Where it could
/// not be resolved the error is pending, in words.
pub fn after_pin(pending: &mut Pending, answer: Result<Value, String>) -> (r: Value)
    ensures
        match answer {
            Ok(v) => r == v && *final(pending) == *old(pending),
            Err(why) => r@ == ValueView::Nil && final(pending).exception == Some(Value::Str(why)),
        },
{
    match answer {
        Ok(v) => v,
        Err(why) => rt_throw(pending, Value::Str(why)),
    }
}

/// What a variable of a pinned namespace comes to once the namespace has been loaded, or could not
/// be: then the error is pending, in words.
pub fn after_load(pending: &mut Pending, g: &Globals, ns: &str, name: &str, answer: Result<(), String>) -> (r: Value)
    ensures
        match answer {
            Ok(_) => {
                &&& *final(pending) == *old(pending)
                &&& r@ == (match found_in(*g, ns@, name@) {
                    Some(i) => g.bindings@[i].value@,
                    None => ValueView::Nil,
                })
            },
            Err(why) => r@ == ValueView::Nil && final(pending).exception == Some(Value::Str(why)),
        },
{
    match answer {
        Ok(_) => match find_in(g, ns, name) {
            Some(i) => copy_value(&g.bindings[i].value),
            None => Value::Nil,
        },
        Err(why) => rt_throw(pending, Value::Str(why)),
    }
}

/// Defines a variable: it takes the place of one of the same name, or comes behind the others.
pub fn rt_def_var(g: &mut Globals, ns: &str, name: &str, v: &Value) -> (r: usize)
    ensures
        r == binding_at(old(g).bindings@, ns@, name@, 0),
        r < final(g).bindings@.len(),
        final(g).bindings@[r as int].ns@ == ns@,
        final(g).bindings@[r as int].name@ == name@,
        final(g).bindings@[r as int].value@ == v@,
        final(g).bindings@.len() == (if r < old(g).bindings@.len() { old(g).bindings@.len() } else { old(g).bindings@.len() + 1 }),
        forall|i: int| 0 <= i < old(g).bindings@.len() && i != r ==> #[trigger] final(g).bindings@[i] == old(g).bindings@[i],
        final(g).refers == old(g).refers,
        final(g).aliases == old(g).aliases,
        final(g).loaded == old(g).loaded,
{
    let i: usize = find_binding(&g.bindings, ns, name);
    let b = Binding { ns: ns.to_owned(), name: name.to_owned(), value: copy_value(v) };
    if i < g.bindings.len() {
        g.bindings.set(i, b);
    } else {
        g.bindings.push(b);
    }
    i
}

proof fn binding_is_found(bs: Seq<Binding>, ns: Seq<char>, name: Seq<char>, i: int)
    requires
        0 <= i <= bs.len(),
    ensures
        i <= binding_at(bs, ns, name, i) <= bs.len(),
        forall|k: int| i <= k < binding_at(bs, ns, name, i) ==> !((#[trigger] bs[k]).ns@ == ns && bs[k].name@ == name),
        binding_at(bs, ns, name, i) < bs.len() ==> bs[binding_at(bs, ns, name, i)].ns@ == ns && bs[binding_at(bs, ns, name, i)].name@ == name,
    decreases bs.len() - i,
{
    if i < bs.len() && !(bs[i].ns@ == ns && bs[i].name@ == name) {
        binding_is_found(bs, ns, name, i + 1);
    }
}

/// What is defined is what is found: after a definition the name refers to the new value.
pub proof fn what_is_defined_is_found(before: Seq<Binding>, after: Seq<Binding>, ns: Seq<char>, name: Seq<char>)
    requires
        ({
            let r = binding_at(before, ns, name, 0);
            &&& r < after.len()
            &&& after[r].ns@ == ns
            &&& after[r].name@ == name
            &&& forall|i: int| 0 <= i < before.len() && i != r ==> #[trigger] after[i] == before[i]
        }),
    ensures
        binding_at(after, ns, name, 0) == binding_at(before, ns, name, 0),
{
    binding_is_found(before, ns, name, 0);
    binding_is_found(after, ns, name, 0);
    let r = binding_at(before, ns, name, 0);
    let s = binding_at(after, ns, name, 0);
    if s < r {
        assert(after[s] == before[s]);
    } else if r < s {
        assert(after[r].ns@ == ns);
    }
}

/// A name that a namespace refers to is found where it is defined, in the namespace and through its
/// aliases, unless the namespace defines the name itself.
pub proof fn what_is_referred_to_is_found(g: Globals, ns: Seq<char>, name: Seq<char>, current: Seq<char>, alias: Seq<char>)
    requires
        binding_at(g.bindings@, ns, name, 0) == g.bindings@.len(),
        0 <= refer_at(g.refers@, ns, name, 0) < g.refers@.len(),
        alias_target(g.aliases@, current, alias, 0) == Some(ns),
        found_in(g, alias, name) is None,
    ensures
        ({
            let r = g.refers@[refer_at(g.refers@, ns, name, 0)];
            let there = binding_at(g.bindings@, r.ns@, r.target@, 0);
            &&& there < g.bindings@.len() ==> found_in(g, ns, name) == Some(there)
            &&& resolved(g, current, alias, name) == found_in(g, ns, name)
        }),
{
}

} // verus!
