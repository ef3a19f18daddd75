//! Ahead-of-time compilation: what is compiled, what is interpreted, and what goes wrong.
use crate::escape;
use crate::escape::{check, BlacklistViolation};
use crate::form;
use crate::form::{Form, FormView};
use crate::harness;
use crate::harness::{
    generate_test_harness_code, sort_texts, test_file_name, test_manifest, test_registration, AsyncPollEntry, Bundled, CompiledNamespace, HarnessDeps, HarnessFile,
};
use crate::ir;
use crate::ir::IrFunction;
use crate::source;
use crate::source::{partition, qualify_aliases, replace_anon_fns};
use crate::template;
use crate::text;
use crate::text::{render_decimal, same, to_chars};
use vstd::prelude::*;
use vstd::string::*;

verus! {

/// Why a program could not be compiled.
#[derive(Debug)]
pub enum AotError {
    Io(String),
    Parse(String),
    Codegen(String),
    Eval(String),
    Link(String),
    Wasm(String),
    /// Memory would be freed while it is in use.
    NoGcBlacklist(Vec<BlacklistViolation>),
}

/// The lines of the first `n` violations.
pub open spec fn violation_lines(vs: Seq<BlacklistViolation>, n: int) -> Seq<char>
    decreases n,
{
    if n <= 0 || n > vs.len() { Seq::empty() } else { violation_lines(vs, n - 1) + ("  • "@ + escape::violation_text(vs[n - 1]@) + "\n"@) }
}

impl AotError {
    /// What is reported.
    pub open spec fn text(&self) -> Seq<char> {
        match *self {
            AotError::Io(e) => "I/O error: "@ + e@,
            AotError::Parse(e) => "parse error: "@ + e@,
            AotError::Codegen(e) => "codegen error: "@ + e@,
            AotError::Eval(e) => "eval/lowering error: "@ + e@,
            AotError::Link(e) => "link error: "@ + e@,
            AotError::Wasm(e) => "wasm backend error: "@ + e@,
            AotError::NoGcBlacklist(vs) => "no-gc blacklist violations:\n"@ + violation_lines(vs@, vs@.len() as int),
        }
    }

    /// What is reported.
    pub fn message(&self) -> (r: String)
        ensures
            r@ == self.text(),
    {
        match self {
            AotError::Io(e) => "I/O error: ".to_owned().concat(e.as_str()),
            AotError::Parse(e) => "parse error: ".to_owned().concat(e.as_str()),
            AotError::Codegen(e) => "codegen error: ".to_owned().concat(e.as_str()),
            AotError::Eval(e) => "eval/lowering error: ".to_owned().concat(e.as_str()),
            AotError::Link(e) => "link error: ".to_owned().concat(e.as_str()),
            AotError::Wasm(e) => "wasm backend error: ".to_owned().concat(e.as_str()),
            AotError::NoGcBlacklist(vs) => {
                let mut lines = String::new();
                let mut i: usize = 0;
                while i < vs.len()
                    invariant
                        i <= vs@.len(),
                        lines@ == violation_lines(vs@, i as int),
                    decreases vs@.len() - i,
                {
                    lines = lines.concat("  • ".to_owned().concat(vs[i].message().as_str()).concat("\n").as_str());
                    i += 1;
                }
                "no-gc blacklist violations:\n".to_owned().concat(lines.as_str())
            },
        }
    }
}

/// A directory, and whether it holds the manifest of a workspace.
#[derive(Debug)]
pub struct Place {
    pub dir: String,
    pub is_workspace: bool,
}

/// The first of the places, from `i` on, that holds a workspace.
pub open spec fn first_workspace(places: Seq<Place>, i: int) -> Option<Seq<char>>
    decreases places.len() - i,
{
    if i < 0 || i >= places.len() {
        None
    } else if places[i].is_workspace {
        Some(places[i].dir@)
    } else {
        first_workspace(places, i + 1)
    }
}

/// The root of the workspace.  A directory that the user gives has to hold one; else it is the one
/// that the compiler was built in, or the first on the way up from the current directory.
pub open spec fn workspace_root(given: Option<Place>, built_in: Option<Place>, above: Seq<Place>) -> Result<Option<Seq<char>>, Seq<char>> {
    match given {
        Some(p) => if p.is_workspace {
            Ok(Some(p.dir@))
        } else {
            Err("CLJRS_WORKSPACE_ROOT="@ + p.dir@ + " does not contain a Cargo.toml with [workspace]"@)
        },
        None => match built_in {
            Some(p) if p.is_workspace => Ok(Some(p.dir@)),
            _ => Ok(first_workspace(above, 0)),
        },
    }
}

/// The root of the workspace, where there is one.
pub fn find_workspace_root(given: &Option<Place>, built_in: &Option<Place>, above: &Vec<Place>) -> (r: Result<Option<String>, AotError>)
    ensures
        match (r, workspace_root(*given, *built_in, above@)) {
            (Ok(Some(dir)), Ok(Some(want))) => dir@ == want,
            (Ok(None), Ok(None)) => true,
            (Err(AotError::Link(e)), Err(want)) => e@ == want,
            _ => false,
        },
{
    match given {
        Some(p) => {
            if p.is_workspace {
                return Ok(Some(p.dir.clone()));
            }
            let text = "CLJRS_WORKSPACE_ROOT=".to_owned().concat(p.dir.as_str()).concat(" does not contain a Cargo.toml with [workspace]");
            return Err(AotError::Link(text));
        },
        None => {},
    }
    match built_in {
        Some(p) => {
            if p.is_workspace {
                return Ok(Some(p.dir.clone()));
            }
        },
        None => {},
    }
    let mut i: usize = 0;
    while i < above.len()
        invariant
            i <= above@.len(),
            workspace_root(*given, *built_in, above@) == Ok::<Option<Seq<char>>, Seq<char>>(first_workspace(above@, i as int)),
        decreases above@.len() - i,
    {
        if above[i].is_workspace {
            return Ok(Some(above[i].dir.clone()));
        }
        i += 1;
    }
    Ok(None)
}

/// How the project depends on the runtime: on the checkout where there is one, else on what is
/// published as this version.
pub fn resolve_harness_deps(root: Option<String>, version: &str) -> (r: HarnessDeps)
    ensures
        match root {
            Some(dir) => r matches HarnessDeps::Workspace(d) && d@ == dir@,
            None => r matches HarnessDeps::Published(v) && v@ == version@,
        },
{
    match root {
        Some(dir) => HarnessDeps::Workspace(dir),
        None => HarnessDeps::Published(version.to_owned()),
    }
}

/// What lowering a required namespace came to.
#[derive(Debug)]
pub enum Lowered {
    /// It has a body, and whether that can be compiled.
    Body(String, bool),
    /// All of it is interpreted.
    Preamble(String),
    /// It could not be lowered.
    Failed,
}

/// A namespace that the program requires.
#[derive(Debug)]
pub struct Required {
    pub ns: String,
    pub source: String,
    pub lowered: Lowered,
}

/// What becomes of the namespaces that a program requires.
#[derive(Debug)]
pub struct NamespacePlan {
    /// Those with a loader.
    pub compiled: Vec<CompiledNamespace>,
    /// The positions of those whose body is compiled.
    pub bodies: Vec<usize>,
    /// Those that are interpreted as a whole.
    pub interpreted: Vec<Bundled>,
}

/// A name, a symbol and a preamble.
pub type CompiledView = (Seq<char>, Option<Seq<char>>, Seq<char>);

/// Namespaces with a loader.
pub open spec fn compiled_view(cs: Seq<CompiledNamespace>) -> Seq<CompiledView> {
    cs.map_values(
        |c: CompiledNamespace|
            (
                c.ns@,
                match c.init_symbol {
                    Some(s) => Some(s@),
                    None => None,
                },
                c.preamble@,
            ),
    )
}

/// Namespaces that are interpreted.
pub open spec fn bundled_view(bs: Seq<Bundled>) -> Seq<(Seq<char>, Seq<char>)> {
    bs.map_values(|b: Bundled| (b.ns@, b.source@))
}

/// The symbol of the code that sets up the `i`th namespace.
pub open spec fn init_symbol(i: nat) -> Seq<char> {
    "__cljrs_ns_init_"@ + text::decimal(i)
}

/// The symbol of the code that sets up the `i`th namespace.
pub fn init_symbol_name(i: usize) -> (r: String)
    ensures
        r@ == init_symbol(i as nat),
{
    "__cljrs_ns_init_".to_owned().concat(render_decimal(i as u64).as_str())
}

/// Those of the first `n` namespaces that get a loader.
pub open spec fn with_loader(found: Seq<Required>, n: int) -> Seq<CompiledView>
    decreases n,
{
    if n <= 0 || n > found.len() {
        Seq::empty()
    } else {
        let rest = with_loader(found, n - 1);
        let f = found[n - 1];
        match f.lowered {
            Lowered::Body(preamble, true) => rest.push((f.ns@, Some(init_symbol((n - 1) as nat)), preamble@)),
            Lowered::Preamble(preamble) => rest.push((f.ns@, None, preamble@)),
            _ => rest,
        }
    }
}

/// The positions among the first `n` namespaces of those whose body is compiled.
pub open spec fn with_body(found: Seq<Required>, n: int) -> Seq<usize>
    decreases n,
{
    if n <= 0 || n > found.len() {
        Seq::empty()
    } else {
        match found[n - 1].lowered {
            Lowered::Body(_, true) => with_body(found, n - 1).push((n - 1) as usize),
            _ => with_body(found, n - 1),
        }
    }
}

/// Those of the first `n` namespaces that are interpreted: those that could not be lowered, or whose
/// body could not be compiled.
pub open spec fn to_interpret(found: Seq<Required>, n: int) -> Seq<(Seq<char>, Seq<char>)>
    decreases n,
{
    if n <= 0 || n > found.len() {
        Seq::empty()
    } else {
        let rest = to_interpret(found, n - 1);
        match found[n - 1].lowered {
            Lowered::Body(_, false) => rest.push((found[n - 1].ns@, found[n - 1].source@)),
            Lowered::Failed => rest.push((found[n - 1].ns@, found[n - 1].source@)),
            _ => rest,
        }
    }
}

fn add_compiled(out: &mut Vec<CompiledNamespace>, ns: &String, init_symbol: Option<String>, preamble: &String)
    ensures
        compiled_view(final(out)@) == compiled_view(old(out)@).push(
            (
                ns@,
                match init_symbol {
                    Some(s) => Some(s@),
                    None => None,
                },
                preamble@,
            ),
        ),
{
    let c = CompiledNamespace { ns: ns.clone(), init_symbol, preamble: preamble.clone() };
    out.push(c);
    assert(compiled_view(out@) =~= compiled_view(old(out)@).push(
        (
            ns@,
            match init_symbol {
                Some(s) => Some(s@),
                None => None,
            },
            preamble@,
        ),
    ));
}

fn add_bundled(out: &mut Vec<Bundled>, ns: &String, source: &String)
    ensures
        bundled_view(final(out)@) == bundled_view(old(out)@).push((ns@, source@)),
{
    out.push(Bundled { ns: ns.clone(), source: source.clone() });
    assert(bundled_view(out@) =~= bundled_view(old(out)@).push((ns@, source@)));
}

/// What becomes of the namespaces that a program requires.  One that cannot be compiled is
/// interpreted, and no reason to fail.
pub fn plan_namespaces(found: &Vec<Required>) -> (r: NamespacePlan)
    ensures
        compiled_view(r.compiled@) == with_loader(found@, found@.len() as int),
        r.bodies@ == with_body(found@, found@.len() as int),
        bundled_view(r.interpreted@) == to_interpret(found@, found@.len() as int),
{
    let mut compiled: Vec<CompiledNamespace> = Vec::new();
    let mut bodies: Vec<usize> = Vec::new();
    let mut interpreted: Vec<Bundled> = Vec::new();
    assert(compiled_view(compiled@) =~= Seq::empty());
    assert(bundled_view(interpreted@) =~= Seq::empty());
    let mut i: usize = 0;
    while i < found.len()
        invariant
            i <= found@.len(),
            compiled_view(compiled@) == with_loader(found@, i as int),
            bodies@ == with_body(found@, i as int),
            bundled_view(interpreted@) == to_interpret(found@, i as int),
        decreases found@.len() - i,
    {
        let f = &found[i];
        match &f.lowered {
            Lowered::Body(preamble, builds) => {
                if *builds {
                    add_compiled(&mut compiled, &f.ns, Some(init_symbol_name(i)), preamble);
                    bodies.push(i);
                } else {
                    add_bundled(&mut interpreted, &f.ns, &f.source);
                }
            },
            Lowered::Preamble(preamble) => add_compiled(&mut compiled, &f.ns, None, preamble),
            Lowered::Failed => add_bundled(&mut interpreted, &f.ns, &f.source),
        }
        i += 1;
    }
    NamespacePlan { compiled, bodies, interpreted }
}

/// No namespace is lost: each gets a loader or is interpreted, and none both.
pub proof fn every_namespace_has_a_place(found: Seq<Required>, n: int)
    requires
        0 <= n <= found.len(),
    ensures
        with_loader(found, n).len() + to_interpret(found, n).len() == n,
        with_body(found, n).len() <= with_loader(found, n).len(),
        forall|k: int| 0 <= k < with_body(found, n).len() ==> (#[trigger] with_body(found, n)[k]) < n,
    decreases n,
{
    if n > 0 {
        every_namespace_has_a_place(found, n - 1);
    }
}

/// The namespaces among the first `n` that are neither known before nor built in.
pub open spec fn newly_loaded(loaded: Seq<Seq<char>>, known: Seq<Seq<char>>, built_in: Seq<Seq<char>>, n: int) -> Seq<Seq<char>>
    decreases n,
{
    if n <= 0 || n > loaded.len() {
        Seq::empty()
    } else if known.contains(loaded[n - 1]) || built_in.contains(loaded[n - 1]) {
        newly_loaded(loaded, known, built_in, n - 1)
    } else {
        newly_loaded(loaded, known, built_in, n - 1).push(loaded[n - 1])
    }
}

/// The namespaces that macro-expansion has loaded, and that the binary does not have anyway.
pub fn required_namespaces(loaded: &Vec<String>, known: &Vec<String>, built_in: &Vec<String>) -> (r: Vec<String>)
    ensures
        harness::texts(r@) == newly_loaded(harness::texts(loaded@), harness::texts(known@), harness::texts(built_in@), loaded@.len() as int),
{
    let ghost ts = harness::texts(loaded@);
    let mut out: Vec<String> = Vec::new();
    assert(harness::texts(out@) =~= Seq::empty());
    let mut i: usize = 0;
    while i < loaded.len()
        invariant
            i <= loaded@.len(),
            ts == harness::texts(loaded@),
            harness::texts(out@) == newly_loaded(ts, harness::texts(known@), harness::texts(built_in@), i as int),
        decreases loaded@.len() - i,
    {
        assert(ts[i as int] == loaded@[i as int]@);
        if !harness::is_in(known, loaded[i].as_str()) && !harness::is_in(built_in, loaded[i].as_str()) {
            let ghost before = harness::texts(out@);
            out.push(loaded[i].clone());
            assert(harness::texts(out@) =~= before.push(ts[i as int]));
        }
        i += 1;
    }
    out
}

/// The first `n` texts, each on a line of its own.
pub open spec fn lines_of(ts: Seq<Seq<char>>, n: int) -> Seq<char>
    decreases n,
{
    if n <= 0 || n > ts.len() { Seq::empty() } else { lines_of(ts, n - 1) + ts[n - 1] + "\n"@ }
}

/// The source of the forms that are interpreted at startup.
pub fn preamble_of(sources: &Vec<String>) -> (r: String)
    ensures
        r@ == lines_of(harness::texts(sources@), sources@.len() as int),
{
    let mut out = String::new();
    let mut i: usize = 0;
    while i < sources.len()
        invariant
            i <= sources@.len(),
            out@ == lines_of(harness::texts(sources@), i as int),
        decreases sources@.len() - i,
    {
        assert(harness::texts(sources@)[i as int] == sources@[i as int]@);
        out = out.concat(sources[i].as_str()).concat("\n");
        i += 1;
    }
    out
}

/// The texts at some positions.
pub open spec fn texts_at(ts: Seq<String>, at: Seq<usize>) -> Seq<Seq<char>> {
    at.map_values(|p: usize| ts[p as int]@)
}

/// A form as it is compiled: what its `#(...)` stand for is put in their place, and its aliases are
/// spelled out.
pub open spec fn compiled_form(expanded: Form, anon: Vec<Form>, aliases: Seq<(Seq<char>, Seq<char>)>) -> FormView {
    source::qualified(source::replaced(form::form_view(expanded), form::forms_view(anon@), 0), aliases)
}

/// The forms at the first `n` of some positions, as they are compiled.
pub open spec fn compiled_forms(expanded: Seq<Form>, anon: Seq<Vec<Form>>, aliases: Seq<(Seq<char>, Seq<char>)>, at: Seq<usize>, n: int) -> Seq<FormView>
    decreases n,
{
    if n <= 0 || n > at.len() {
        Seq::empty()
    } else {
        compiled_forms(expanded, anon, aliases, at, n - 1).push(compiled_form(expanded[at[n - 1] as int], anon[at[n - 1] as int], aliases))
    }
}

/// Every `#(...)` of the form at `i` that is not inside another has something that it stands for.
pub open spec fn has_expansions(expanded: Seq<Form>, anon: Seq<Vec<Form>>, i: int) -> bool {
    source::anon_fns(form::form_view(expanded[i])).len() <= anon[i]@.len()
}

proof fn positions_are_inside(forms: Seq<Form>, expanded: Seq<Form>, staying: bool)
    requires
        forms.len() <= usize::MAX,
    ensures
        forall|k: int| 0 <= k < source::positions(forms, expanded, staying, forms.len() as int).len() ==> #[trigger] source::positions(forms, expanded, staying, forms.len() as int)[k] < forms.len(),
{
    let at = source::positions(forms, expanded, staying, forms.len() as int);
    assert forall|k: int| 0 <= k < at.len() implies #[trigger] at[k] < forms.len() by {
        source::partition_is_complete(forms, expanded, forms.len() as int, at[k]);
        assert(at.contains(at[k]));
    }
}

/// Splits a program, or a namespace, into the source that is interpreted at startup and the forms
/// that are compiled.  Each form comes with what it expands to, its text, and what the outermost
/// `#(...)` of what it expands to stand for.
pub fn split_program(forms: &Vec<Form>, expanded: &Vec<Form>, texts: &Vec<String>, anon: &Vec<Vec<Form>>, aliases: &Vec<(String, String)>) -> (r: (String, Vec<Form>))
    requires
        forms@.len() == expanded@.len() == texts@.len() == anon@.len(),
        forall|i: int| 0 <= i < forms@.len() ==> #[trigger] has_expansions(expanded@, anon@, i),
    ensures
        ({
            let stay = source::positions(forms@, expanded@, true, forms@.len() as int);
            let go = source::positions(forms@, expanded@, false, forms@.len() as int);
            &&& r.0@ == lines_of(texts_at(texts@, stay), stay.len() as int)
            &&& form::forms_view(r.1@) == compiled_forms(expanded@, anon@, source::aliases_view(aliases@), go, go.len() as int)
        }),
{
    let (stay, go) = partition(forms, expanded);
    let n: usize = forms.len();
    assert(forms@.len() == n);
    proof {
        positions_are_inside(forms@, expanded@, true);
        positions_are_inside(forms@, expanded@, false);
    }
    let mut sources: Vec<String> = Vec::new();
    assert(harness::texts(sources@) =~= texts_at(texts@, stay@).take(0));
    let mut i: usize = 0;
    while i < stay.len()
        invariant
            i <= stay@.len(),
            forall|k: int| 0 <= k < stay@.len() ==> #[trigger] stay@[k] < texts@.len(),
            harness::texts(sources@) == texts_at(texts@, stay@).take(i as int),
        decreases stay@.len() - i,
    {
        let text = texts[stay[i]].clone();
        let ghost before = sources@;
        sources.push(text);
        assert(harness::texts(sources@) =~= harness::texts(before).push(text@));
        assert(texts_at(texts@, stay@).take(i + 1) =~= texts_at(texts@, stay@).take(i as int).push(texts_at(texts@, stay@)[i as int]));
        i += 1;
    }
    assert(texts_at(texts@, stay@).take(stay@.len() as int) =~= texts_at(texts@, stay@));
    assert(sources@.len() == harness::texts(sources@).len());
    let mut body: Vec<Form> = Vec::new();
    assert(form::forms_view(body@) =~= Seq::empty());
    let mut i: usize = 0;
    while i < go.len()
        invariant
            i <= go@.len(),
            expanded@.len() == anon@.len(),
            forall|k: int| 0 <= k < expanded@.len() ==> #[trigger] has_expansions(expanded@, anon@, k),
            forall|k: int| 0 <= k < go@.len() ==> #[trigger] go@[k] < expanded@.len(),
            form::forms_view(body@) == compiled_forms(expanded@, anon@, source::aliases_view(aliases@), go@, i as int),
        decreases go@.len() - i,
    {
        let at: usize = go[i];
        assert(has_expansions(expanded@, anon@, at as int));
        let whole = replace_anon_fns(&expanded[at], &anon[at]);
        let f = qualify_aliases(&whole, aliases);
        proof {
            form::forms_view_push(body@, f);
        }
        body.push(f);
        i += 1;
    }
    (preamble_of(&sources), body)
}

/// A function, unless memory would be freed while it is in use.
pub fn accepted(ir_func: IrFunction) -> (r: Result<IrFunction, AotError>)
    ensures
        match r {
            Ok(f) => f == ir_func && escape::all_violations(ir_func).len() == 0,
            Err(AotError::NoGcBlacklist(vs)) => vs@.len() > 0 && escape::violations_view(vs@) == escape::all_violations(ir_func),
            Err(_) => false,
        },
{
    let violations = check(&ir_func);
    assert(violations@.len() == escape::violations_view(violations@).len());
    if violations.len() > 0 {
        return Err(AotError::NoGcBlacklist(violations));
    }
    Ok(ir_func)
}

/// An arity of an async function, and what lowering it to a poll function came to.
#[derive(Debug)]
pub enum AsyncLowered {
    /// It uses what a poll function cannot do.
    Unsupported,
    /// It could not be lowered.
    Failed,
    /// It has inner functions.
    HasInner,
    /// A poll function with this many slots.
    Poll(usize),
}

/// An arity of a function that a program defines.
#[derive(Debug)]
pub struct AsyncArity {
    pub params: usize,
    pub lowered: AsyncLowered,
}

/// A function that a program defines, by the variable that holds it.
#[derive(Debug)]
pub struct AsyncFn {
    /// The namespace of the variable.
    pub var_ns: String,
    /// The name of the variable.
    pub var_name: String,
    /// The namespace that the function was defined in.
    pub ns: String,
    pub name: Option<String>,
    pub is_async: bool,
    pub captures: usize,
    pub arities: Vec<AsyncArity>,
}

/// A namespace, a name, an arity, a symbol and a number of slots.
pub type PollView = (Seq<char>, Seq<char>, usize, Seq<char>, usize);

/// Compiled arities.
pub open spec fn polls_view(ps: Seq<AsyncPollEntry>) -> Seq<PollView> {
    ps.map_values(|p: AsyncPollEntry| (p.ns@, p.name@, p.arity, p.symbol@, p.n_slots))
}

/// The symbol of the `i`th poll function.
pub open spec fn poll_symbol(i: nat) -> Seq<char> {
    "__cljrs_async_poll_"@ + text::decimal(i)
}

/// Poll functions are made of the async functions of the program itself that capture nothing.
pub open spec fn wants_polls(f: AsyncFn) -> bool {
    !"clojure."@.is_prefix_of(f.var_ns@) && f.is_async && f.captures == 0
}

/// The name of a function: its own, or that of the variable.
pub open spec fn async_name(f: AsyncFn) -> Seq<char> {
    match f.name {
        Some(name) => name@,
        None => f.var_name@,
    }
}

/// The poll functions with those of the first `n` arities of a function.
pub open spec fn arity_polls(f: AsyncFn, done: Seq<PollView>, n: int) -> Seq<PollView>
    decreases n,
{
    if n <= 0 || n > f.arities@.len() {
        done
    } else {
        let rest = arity_polls(f, done, n - 1);
        match f.arities@[n - 1].lowered {
            AsyncLowered::Poll(slots) => rest.push((f.ns@, async_name(f), f.arities@[n - 1].params, poll_symbol(rest.len()), slots)),
            _ => rest,
        }
    }
}

/// The poll functions of the first `n` functions.
pub open spec fn polls_of(fs: Seq<AsyncFn>, n: int) -> Seq<PollView>
    decreases n,
{
    if n <= 0 || n > fs.len() {
        Seq::empty()
    } else if wants_polls(fs[n - 1]) {
        arity_polls(fs[n - 1], polls_of(fs, n - 1), fs[n - 1].arities@.len() as int)
    } else {
        polls_of(fs, n - 1)
    }
}

fn starts_with(s: &str, prefix: &str) -> (r: bool)
    ensures
        r == prefix@.is_prefix_of(s@),
{
    let cs = to_chars(s);
    let ps = to_chars(prefix);
    if ps.len() > cs.len() {
        return false;
    }
    let mut i: usize = 0;
    while i < ps.len()
        invariant
            i <= ps@.len() <= cs@.len(),
            cs@ == s@,
            ps@ == prefix@,
            forall|k: int| 0 <= k < i ==> #[trigger] ps@[k] == cs@[k],
        decreases ps@.len() - i,
    {
        if cs[i] != ps[i] {
            assert(cs@.subrange(0, ps@.len() as int)[i as int] == cs@[i as int]);
            return false;
        }
        i += 1;
    }
    assert(prefix@ =~= s@.subrange(0, prefix@.len() as int));
    true
}

fn add_polls(out: &mut Vec<AsyncPollEntry>, f: &AsyncFn)
    ensures
        polls_view(final(out)@) == arity_polls(*f, polls_view(old(out)@), f.arities@.len() as int),
{
    let ghost done = polls_view(out@);
    let name = match &f.name {
        Some(name) => name.clone(),
        None => f.var_name.clone(),
    };
    let mut i: usize = 0;
    while i < f.arities.len()
        invariant
            i <= f.arities@.len(),
            name@ == async_name(*f),
            polls_view(out@) == arity_polls(*f, done, i as int),
        decreases f.arities@.len() - i,
    {
        match &f.arities[i].lowered {
            AsyncLowered::Poll(slots) => {
                let ghost before = polls_view(out@);
                let n: usize = out.len();
                let symbol = "__cljrs_async_poll_".to_owned().concat(render_decimal(n as u64).as_str());
                out.push(AsyncPollEntry { ns: f.ns.clone(), name: name.clone(), arity: f.arities[i].params, symbol, n_slots: *slots });
                assert(polls_view(out@) =~= before.push((f.ns@, name@, f.arities@[i as int].params, poll_symbol(before.len()), *slots)));
            },
            _ => {},
        }
        i += 1;
    }
}

/// The poll functions of a program: one for each arity of its async functions that could be
/// lowered, each under a symbol of its own.
pub fn async_poll_fns(fs: &Vec<AsyncFn>) -> (r: Vec<AsyncPollEntry>)
    ensures
        polls_view(r@) == polls_of(fs@, fs@.len() as int),
{
    let mut out: Vec<AsyncPollEntry> = Vec::new();
    assert(polls_view(out@) =~= Seq::empty());
    let mut i: usize = 0;
    while i < fs.len()
        invariant
            i <= fs@.len(),
            polls_view(out@) == polls_of(fs@, i as int),
        decreases fs@.len() - i,
    {
        let f = &fs[i];
        if !starts_with(f.var_ns.as_str(), "clojure.") && f.is_async && f.captures == 0 {
            add_polls(&mut out, f);
        }
        i += 1;
    }
    out
}

/// Whether a file is a source.
pub fn is_source_extension(ext: &str) -> (r: bool)
    ensures
        r == (ext@ == "cljc"@ || ext@ == "cljrs"@),
{
    same(ext, "cljc") || same(ext, "cljrs")
}

/// The namespaces to test, in order: those of the test directory, or those of the sources where it
/// has none.
pub fn discover_test_namespaces(in_tests: Vec<String>, in_sources: Vec<String>, dir: &str) -> (r: Result<Vec<String>, AotError>)
    ensures
        ({
            let found = if in_tests@.len() > 0 { harness::texts(in_tests@) } else { harness::texts(in_sources@) };
            match r {
                Ok(ns) => found.len() > 0 && harness::ascends(harness::texts(ns@)) && harness::texts(ns@).to_multiset() == found.to_multiset(),
                Err(AotError::Eval(text)) => found.len() == 0 && text@ == "No test files found in "@ + dir@,
                Err(_) => false,
            }
        }),
{
    let found = if in_tests.len() > 0 { in_tests } else { in_sources };
    if found.len() == 0 {
        return Err(AotError::Eval("No test files found in ".to_owned().concat(dir)));
    }
    Ok(sort_texts(found))
}

/// The sources that were found.
pub open spec fn found_texts(sources: Seq<Option<String>>) -> Seq<Seq<char>> {
    sources.map_values(|s: Option<String>| s->0@)
}

/// The files of the first `n` sources of a test runner.
pub open spec fn test_files(sources: Seq<Seq<char>>, n: int) -> Seq<harness::FileView>
    decreases n,
{
    if n <= 0 || n > sources.len() { Seq::empty() } else { test_files(sources, n - 1).push(("src/"@ + harness::test_file((n - 1) as nat), sources[n - 1])) }
}

/// The files of a test runner.
pub open spec fn test_project_files(deps: HarnessDeps, tests: Seq<Seq<char>>, all: Seq<Seq<char>>, sources: Seq<Seq<char>>) -> Seq<harness::FileView> {
    seq![("src/main.rs"@, harness::test_main_text(tests, harness::test_bundled_text(all, all.len() as int)))] + test_files(sources, sources.len() as int) + seq![
        ("Cargo.toml"@, harness::test_manifest_text(deps)),
        ("build.rs"@, template::TEST_BUILD@),
    ]
}

/// The first namespace, from `i` on, whose source was not found.
pub open spec fn first_missing(sources: Seq<Option<String>>, i: int) -> int
    decreases sources.len() - i,
{
    if i < 0 || i >= sources.len() || sources[i] is None { i } else { first_missing(sources, i + 1) }
}

/// The files of a test runner that runs the tests of `tests`, in the order in which they are
/// written.  All its namespaces go with it, each with its source, which has to be there.
pub fn compile_test_harness(deps: &HarnessDeps, tests: &Vec<String>, all: &Vec<String>, sources: &Vec<Option<String>>) -> (r: Result<Vec<HarnessFile>, AotError>)
    requires
        all@.len() == sources@.len(),
    ensures
        match r {
            Ok(files) => {
                &&& first_missing(sources@, 0) == sources@.len()
                &&& harness::files_view(files@) == test_project_files(*deps, harness::texts(tests@), harness::texts(all@), found_texts(sources@))
            },
            Err(AotError::Eval(text)) => {
                &&& first_missing(sources@, 0) < sources@.len()
                &&& text@ == "Could not find source for namespace "@ + all@[first_missing(sources@, 0)]@
            },
            Err(_) => false,
        },
{
    let mut out: Vec<HarnessFile> = Vec::new();
    let main = generate_test_harness_code(tests, test_registration(all).as_str());
    let ghost first = ("src/main.rs"@, main@);
    out.push(HarnessFile { path: "src/main.rs".to_owned(), contents: main });
    assert(harness::files_view(out@) =~= seq![first] + test_files(found_texts(sources@), 0));
    let mut i: usize = 0;
    while i < sources.len()
        invariant
            i <= sources@.len(),
            all@.len() == sources@.len(),
            first_missing(sources@, 0) == first_missing(sources@, i as int),
            harness::files_view(out@) == seq![first] + test_files(found_texts(sources@), i as int),
        decreases sources@.len() - i,
    {
        match &sources[i] {
            Some(text) => {
                let ghost before = harness::files_view(out@);
                let path = "src/".to_owned().concat(test_file_name(i).as_str());
                let contents = text.clone();
                assert(found_texts(sources@)[i as int] == contents@);
                out.push(HarnessFile { path, contents });
                assert(harness::files_view(out@) =~= before.push((path@, contents@)));
                assert(before.push((path@, contents@)) =~= seq![first] + test_files(found_texts(sources@), i + 1));
            },
            None => {
                return Err(AotError::Eval("Could not find source for namespace ".to_owned().concat(all[i].as_str())));
            },
        }
        i += 1;
    }
    let ghost before = harness::files_view(out@);
    let manifest = test_manifest(deps);
    let build = template::TEST_BUILD.to_owned();
    out.push(HarnessFile { path: "Cargo.toml".to_owned(), contents: manifest });
    out.push(HarnessFile { path: "build.rs".to_owned(), contents: build });
    assert(harness::files_view(out@) =~= before + seq![("Cargo.toml"@, manifest@), ("build.rs"@, build@)]);
    Ok(out)
}

/// The namespace that a pin refers to: an alias of the current one, or a namespace by its name, or
/// the current one.
pub open spec fn pin_target(part: Option<Seq<char>>, current: Seq<char>, aliases: Seq<(Seq<char>, Seq<char>)>) -> Seq<char> {
    match part {
        Some(p) => match source::alias_of(aliases, p, 0) {
            Some(ns) => ns,
            None => p,
        },
        None => current,
    }
}

/// The namespace that a pin refers to, as it is named in the source.
pub fn pin_namespace(part: &Option<String>, current: &str, aliases: &Vec<(String, String)>) -> (r: String)
    ensures
        r@ == pin_target(ir::text_opt(*part), current@, source::aliases_view(aliases@)),
{
    match part {
        Some(p) => match source::resolve_alias(aliases, p.as_str()) {
            Some(ns) => ns.clone(),
            None => p.clone(),
        },
        None => current.to_owned(),
    }
}

} // verus!
