//! The project that is linked with compiled code: its manifest, its build file and its main file.
use crate::extensions;
use crate::extensions::{Extension, ExtensionSet};
use crate::native_dep;
use crate::template;
use crate::text;
use crate::text::{less_text, render_decimal, same, to_chars};
use vstd::prelude::*;
use vstd::string::*;

verus! {

/// How the project depends on the crates of the runtime.
#[derive(Debug)]
pub enum HarnessDeps {
    /// By path, on a checkout at this directory.
    Workspace(String),
    /// On the published crates of this version.
    Published(String),
}

impl HarnessDeps {
    /// Whether the project can be built without network: a checkout is complete.
    pub fn offline(&self) -> (r: bool)
        ensures
            r == (self is Workspace),
    {
        match self {
            HarnessDeps::Workspace(_) => true,
            HarnessDeps::Published(_) => false,
        }
    }

    /// The line of the manifest for one crate: its path in the checkout, or exactly the published
    /// version.
    pub open spec fn line(&self, name: Seq<char>) -> Seq<char> {
        match *self {
            HarnessDeps::Workspace(root) => name + " = { path = \""@ + root@ + "/crates/"@ + name + "\" }\n"@,
            HarnessDeps::Published(version) => name + " = \"="@ + version@ + "\"\n"@,
        }
    }

    /// The line of the manifest for one crate.
    pub fn dep_line(&self, name: &str) -> (r: String)
        ensures
            r@ == self.line(name@),
    {
        match self {
            HarnessDeps::Workspace(root) => name.to_owned().concat(" = { path = \"").concat(root.as_str()).concat("/crates/").concat(name).concat("\" }\n"),
            HarnessDeps::Published(version) => name.to_owned().concat(" = \"=").concat(version.as_str()).concat("\"\n"),
        }
    }
}

/// The crates of the runtime, each behind those that it needs.
pub open spec fn runtime_crates() -> Seq<Seq<char>> {
    seq![
        "cljrs-logging"@,
        "cljrs-types"@,
        "cljrs-gc"@,
        "cljrs-value"@,
        "cljrs-reader"@,
        "cljrs-env"@,
        "cljrs-eval"@,
        "cljrs-stdlib"@,
        "cljrs-compiler"@,
        "cljrs-async"@,
        "cljrs-io"@,
        "cljrs-net"@,
        "cljrs-charset"@,
        "cljrs-base64"@,
    ]
}

/// The number of crates that a test runner needs: it interprets, and takes no part in networking.
pub open spec fn test_crate_count() -> int {
    9
}

/// The lines of the manifest for the first `n` crates of a list.
pub open spec fn lines(deps: HarnessDeps, names: Seq<Seq<char>>, n: int) -> Seq<char>
    decreases n,
{
    if n <= 0 || n > names.len() { Seq::empty() } else { lines(deps, names, n - 1) + deps.line(names[n - 1]) }
}

fn push_line(out: String, deps: &HarnessDeps, name: &str, Ghost(n): Ghost<int>) -> (r: String)
    requires
        0 <= n < runtime_crates().len(),
        name@ == runtime_crates()[n],
        out@ == lines(*deps, runtime_crates(), n),
    ensures
        r@ == lines(*deps, runtime_crates(), n + 1),
{
    out.concat(deps.dep_line(name).as_str())
}

/// The lines of the manifest for what a test runner needs.
pub fn test_runtime_deps(deps: &HarnessDeps) -> (r: String)
    ensures
        r@ == lines(*deps, runtime_crates(), test_crate_count()),
{
    let out = "".to_owned();
    proof {
        reveal_strlit("");
        assert(out@ =~= Seq::empty());
    }
    let out = push_line(out, deps, "cljrs-logging", Ghost(0));
    let out = push_line(out, deps, "cljrs-types", Ghost(1));
    let out = push_line(out, deps, "cljrs-gc", Ghost(2));
    let out = push_line(out, deps, "cljrs-value", Ghost(3));
    let out = push_line(out, deps, "cljrs-reader", Ghost(4));
    let out = push_line(out, deps, "cljrs-env", Ghost(5));
    let out = push_line(out, deps, "cljrs-eval", Ghost(6));
    let out = push_line(out, deps, "cljrs-stdlib", Ghost(7));
    push_line(out, deps, "cljrs-compiler", Ghost(8))
}

/// The lines of the manifest for the crates of the runtime.
pub fn runtime_deps(deps: &HarnessDeps) -> (r: String)
    ensures
        r@ == lines(*deps, runtime_crates(), runtime_crates().len() as int),
{
    let out = test_runtime_deps(deps);
    let out = push_line(out, deps, "cljrs-async", Ghost(9));
    let out = push_line(out, deps, "cljrs-io", Ghost(10));
    let out = push_line(out, deps, "cljrs-net", Ghost(11));
    let out = push_line(out, deps, "cljrs-charset", Ghost(12));
    push_line(out, deps, "cljrs-base64", Ghost(13))
}

/// Whether a crate is one of the runtime.
fn is_runtime_crate(name: &str) -> (r: bool)
    ensures
        r == runtime_crates().contains(name@),
{
    let r = same(name, "cljrs-logging") || same(name, "cljrs-types") || same(name, "cljrs-gc") || same(name, "cljrs-value") || same(name, "cljrs-reader")
        || same(name, "cljrs-env") || same(name, "cljrs-eval") || same(name, "cljrs-stdlib") || same(name, "cljrs-compiler") || same(name, "cljrs-async")
        || same(name, "cljrs-io") || same(name, "cljrs-net") || same(name, "cljrs-charset") || same(name, "cljrs-base64");
    proof {
        let c = runtime_crates();
        assert(c[0] == "cljrs-logging"@ && c[1] == "cljrs-types"@ && c[2] == "cljrs-gc"@ && c[3] == "cljrs-value"@ && c[4] == "cljrs-reader"@ && c[5] == "cljrs-env"@
            && c[6] == "cljrs-eval"@ && c[7] == "cljrs-stdlib"@ && c[8] == "cljrs-compiler"@ && c[9] == "cljrs-async"@ && c[10] == "cljrs-io"@ && c[11] == "cljrs-net"@
            && c[12] == "cljrs-charset"@ && c[13] == "cljrs-base64"@);
    }
    r
}

/// The lines of the manifest for those of the first `n` extensions that are not part of the runtime.
pub open spec fn added_lines(deps: HarnessDeps, es: Seq<Extension>, n: int) -> Seq<char>
    decreases n,
{
    if n <= 0 || n > es.len() {
        Seq::empty()
    } else if runtime_crates().contains(es[n - 1].crate_name@) {
        added_lines(deps, es, n - 1)
    } else {
        added_lines(deps, es, n - 1) + deps.line(es[n - 1].crate_name@)
    }
}

/// The calls that register those of the first `n` extensions that are not part of the runtime.
pub open spec fn added_calls(es: Seq<Extension>, n: int) -> Seq<char>
    decreases n,
{
    if n <= 0 || n > es.len() {
        Seq::empty()
    } else if runtime_crates().contains(es[n - 1].crate_name@) {
        added_calls(es, n - 1)
    } else {
        added_calls(es, n - 1) + extensions::call_text(es[n - 1])
    }
}

/// The lines of the manifest and the calls for the extensions that are not part of the runtime, which
/// the project has in any case.
pub fn added_extensions(deps: &HarnessDeps, extensions: &ExtensionSet) -> (r: (String, String))
    ensures
        r.0@ == added_lines(*deps, extensions@, extensions@.len() as int),
        r.1@ == added_calls(extensions@, extensions@.len() as int),
{
    let mut deps_text = String::new();
    let mut calls = String::new();
    let es = extensions.iter();
    let mut i: usize = 0;
    while i < es.len()
        invariant
            i <= es@.len(),
            es@ == extensions@,
            deps_text@ == added_lines(*deps, extensions@, i as int),
            calls@ == added_calls(extensions@, i as int),
        decreases es@.len() - i,
    {
        if !is_runtime_crate(es[i].crate_name.as_str()) {
            deps_text = deps_text.concat(deps.dep_line(es[i].crate_name.as_str()).as_str());
            calls = calls.concat(es[i].init_call().as_str());
        }
        i += 1;
    }
    (deps_text, calls)
}

/// A native crate that a program links with.
#[derive(Debug)]
pub struct RustConfig {
    pub crate_name: Option<String>,
    pub crate_dir: String,
    /// The name of its package, where its manifest gives one.
    pub package: Option<String>,
    /// The function that registers what the crate provides.
    pub init_fn: Option<String>,
}

/// The lines of the manifest for a native crate.
pub open spec fn native_lines(deps: HarnessDeps, config: Option<RustConfig>) -> Seq<char> {
    match config {
        None => Seq::empty(),
        Some(c) => match c.crate_name {
            None => deps.line("cljrs-interop"@),
            Some(name) => deps.line("cljrs-interop"@) + native_dep::dep_text(name@, c.crate_dir@, match c.package {
                Some(p) => Some(p@),
                None => None,
            }),
        },
    }
}

/// The manifest.
pub open spec fn manifest_text(deps: HarnessDeps, es: Seq<Extension>, config: Option<RustConfig>) -> Seq<char> {
    template::MANIFEST_HEAD@ + lines(deps, runtime_crates(), runtime_crates().len() as int) + added_lines(deps, es, es.len() as int) + template::MANIFEST_TOKIO@ + native_lines(deps, config)
}

/// The manifest of the project.
pub fn manifest(deps: &HarnessDeps, extensions: &ExtensionSet, config: &Option<RustConfig>) -> (r: String)
    ensures
        r@ == manifest_text(*deps, extensions@, *config),
{
    let (added, _) = added_extensions(deps, extensions);
    let out = template::MANIFEST_HEAD.to_owned().concat(runtime_deps(deps).as_str()).concat(added.as_str()).concat(template::MANIFEST_TOKIO);
    match config {
        None => {
            assert(out@ + Seq::<char>::empty() =~= out@);
            out
        },
        Some(c) => {
            let interop = deps.dep_line("cljrs-interop");
            match &c.crate_name {
                None => out.concat(interop.as_str()),
                Some(name) => {
                    let own = match &c.package {
                        Some(p) => native_dep::dep_line(name.as_str(), c.crate_dir.as_str(), Some(p.as_str())),
                        None => native_dep::dep_line(name.as_str(), c.crate_dir.as_str(), None),
                    };
                    out.concat(interop.concat(own.as_str()).as_str())
                },
            }
        },
    }
}

/// The manifest of a test runner.
pub open spec fn test_manifest_text(deps: HarnessDeps) -> Seq<char> {
    template::TEST_MANIFEST_HEAD@ + lines(deps, runtime_crates(), test_crate_count())
}

/// The manifest of a test runner.
pub fn test_manifest(deps: &HarnessDeps) -> (r: String)
    ensures
        r@ == test_manifest_text(*deps),
{
    template::TEST_MANIFEST_HEAD.to_owned().concat(test_runtime_deps(deps).as_str())
}

/// The build file, which links the object file at `object`.
pub fn build_file(object: &str) -> (r: String)
    ensures
        r@ == template::BUILD_HEAD@ + object@ + template::BUILD_AGAIN@ + object@ + template::BUILD_TAIL@,
{
    template::BUILD_HEAD.to_owned().concat(object).concat(template::BUILD_AGAIN).concat(object).concat(template::BUILD_TAIL)
}

/// What `{:?}` prints for a text.
pub uninterp spec fn debug_text(s: Seq<char>) -> Seq<char>;

/// A character that stands for itself in a literal.
pub open spec fn is_plain(c: char) -> bool {
    (c == ' ' || c == '!' || '#' <= c <= '&' || '(' <= c <= '[' || ']' <= c <= '~')
}

/// `<str as Debug>::fmt` through `format!`: the text as a literal.  A text of plain characters is
/// the text between quotes; how others are escaped is left to the standard library.
#[verifier::external_body]
fn quoted(s: &str) -> (r: String)
    ensures
        r@ == debug_text(s@),
        (forall|i: int| 0 <= i < s@.len() ==> is_plain(#[trigger] s@[i])) ==> r@ == seq!['"'] + s@ + seq!['"'],
{
    format!("{s:?}")
}

/// A source that goes with the program, under the name of its namespace.
#[derive(Debug)]
pub struct Bundled {
    pub ns: String,
    pub source: String,
}

/// The file of the `i`th bundled source.
pub open spec fn versioned_file(i: nat) -> Seq<char> {
    "versioned_"@ + text::decimal(i) + ".cljrs"@
}

/// The file of the `i`th bundled source.
pub fn versioned_file_name(i: usize) -> (r: String)
    ensures
        r@ == versioned_file(i as nat),
{
    "versioned_".to_owned().concat(render_decimal(i as u64).as_str()).concat(".cljrs")
}

/// The registration of the first `n` bundled sources.
pub open spec fn bundled_text(bundled: Seq<Bundled>, n: int) -> Seq<char>
    decreases n,
{
    if n <= 0 || n > bundled.len() {
        Seq::empty()
    } else {
        bundled_text(bundled, n - 1) + ("    globals.register_builtin_source("@ + debug_text(bundled[n - 1].ns@) + ", include_str!("@
            + debug_text(versioned_file((n - 1) as nat)) + "));\n"@)
    }
}

/// The registration of bundled sources.
pub fn bundled_registration(bundled: &Vec<Bundled>) -> (r: String)
    ensures
        r@ == bundled_text(bundled@, bundled@.len() as int),
{
    let mut out = String::new();
    let mut i: usize = 0;
    while i < bundled.len()
        invariant
            i <= bundled@.len(),
            out@ == bundled_text(bundled@, i as int),
        decreases bundled@.len() - i,
    {
        let line = "    globals.register_builtin_source(".to_owned().concat(quoted(bundled[i].ns.as_str()).as_str()).concat(", include_str!(").concat(
            quoted(versioned_file_name(i).as_str()).as_str(),
        ).concat("));\n");
        out = out.concat(line.as_str());
        i += 1;
    }
    out
}

/// A namespace that has been compiled: what is interpreted of it, and the symbol of the code that
/// sets up the rest, where there is a rest.
#[derive(Debug)]
pub struct CompiledNamespace {
    pub ns: String,
    pub init_symbol: Option<String>,
    pub preamble: String,
}

/// The file of the preamble of the `i`th namespace.
pub open spec fn preamble_file(i: nat) -> Seq<char> {
    "ns_"@ + text::decimal(i) + "_preamble.cljrs"@
}

/// The file of the preamble of the `i`th namespace.
pub fn preamble_file_name(i: usize) -> (r: String)
    ensures
        r@ == preamble_file(i as nat),
{
    "ns_".to_owned().concat(render_decimal(i as u64).as_str()).concat("_preamble.cljrs")
}

/// The declarations of the code that sets up the first `n` namespaces.
pub open spec fn externs_text(namespaces: Seq<CompiledNamespace>, n: int) -> Seq<char>
    decreases n,
{
    if n <= 0 || n > namespaces.len() {
        Seq::empty()
    } else {
        match namespaces[n - 1].init_symbol {
            Some(symbol) => externs_text(namespaces, n - 1) + ("    fn "@ + symbol@ + "() -> *const Value;\n"@),
            None => externs_text(namespaces, n - 1),
        }
    }
}

/// The declarations of the code that sets up namespaces.
pub fn init_externs(namespaces: &Vec<CompiledNamespace>) -> (r: String)
    ensures
        r@ == externs_text(namespaces@, namespaces@.len() as int),
{
    let mut out = String::new();
    let mut i: usize = 0;
    while i < namespaces.len()
        invariant
            i <= namespaces@.len(),
            out@ == externs_text(namespaces@, i as int),
        decreases namespaces@.len() - i,
    {
        match &namespaces[i].init_symbol {
            Some(symbol) => {
                out = out.concat("    fn ".to_owned().concat(symbol.as_str()).concat("() -> *const Value;\n").as_str());
            },
            None => {},
        }
        i += 1;
    }
    out
}

/// The loader of the `i`th namespace.
pub open spec fn loader_text(c: CompiledNamespace, i: nat) -> Seq<char> {
    let call = match c.init_symbol {
        Some(symbol) => "        unsafe { "@ + symbol@ + "(); }\n"@,
        None => Seq::empty(),
    };
    template::LOADER_HEAD@ + debug_text(c.ns@) + template::LOADER_ENV@ + debug_text(c.ns@) + template::LOADER_SOURCE@ + debug_text(preamble_file(i)) + template::LOADER_PARSE@
        + debug_text("<"@ + c.ns@ + ">"@) + template::LOADER_RUN@ + call + template::LOADER_TAIL@
}

/// The loader of the `i`th namespace.
pub fn loader(c: &CompiledNamespace, i: usize) -> (r: String)
    ensures
        r@ == loader_text(*c, i as nat),
{
    let ns = quoted(c.ns.as_str());
    let label = quoted("<".to_owned().concat(c.ns.as_str()).concat(">").as_str());
    let call = match &c.init_symbol {
        Some(symbol) => "        unsafe { ".to_owned().concat(symbol.as_str()).concat("(); }\n"),
        None => String::new(),
    };
    let file = quoted(preamble_file_name(i).as_str());
    template::LOADER_HEAD.to_owned().concat(ns.as_str()).concat(template::LOADER_ENV).concat(ns.as_str()).concat(template::LOADER_SOURCE).concat(file.as_str()).concat(
        template::LOADER_PARSE,
    ).concat(label.as_str()).concat(template::LOADER_RUN).concat(call.as_str()).concat(template::LOADER_TAIL)
}

/// The loaders of the first `n` namespaces.
pub open spec fn loaders_text(namespaces: Seq<CompiledNamespace>, n: int) -> Seq<char>
    decreases n,
{
    if n <= 0 || n > namespaces.len() { Seq::empty() } else { loaders_text(namespaces, n - 1) + loader_text(namespaces[n - 1], (n - 1) as nat) }
}

/// The loaders of namespaces.
pub fn loaders(namespaces: &Vec<CompiledNamespace>) -> (r: String)
    ensures
        r@ == loaders_text(namespaces@, namespaces@.len() as int),
{
    let mut out = String::new();
    let mut i: usize = 0;
    while i < namespaces.len()
        invariant
            i <= namespaces@.len(),
            out@ == loaders_text(namespaces@, i as int),
        decreases namespaces@.len() - i,
    {
        out = out.concat(loader(&namespaces[i], i).as_str());
        i += 1;
    }
    out
}

/// The call that registers what a native crate provides.
pub open spec fn native_init_text(config: Option<RustConfig>) -> Seq<char> {
    match config {
        Some(c) => match c.init_fn {
            Some(f) => "\n    // Register native Rust functions via the user crate's init hook.\n    let mut __registry = cljrs_interop::Registry::new(globals.clone());\n    "@ + f@
                + "(&mut __registry);\n"@,
            None => Seq::empty(),
        },
        None => Seq::empty(),
    }
}

/// The call that registers what a native crate provides.
pub fn native_init(config: &Option<RustConfig>) -> (r: String)
    ensures
        r@ == native_init_text(*config),
{
    match config {
        Some(c) => match &c.init_fn {
            Some(f) => {
                "\n    // Register native Rust functions via the user crate's init hook.\n    let mut __registry = cljrs_interop::Registry::new(globals.clone());\n    ".to_owned().concat(
                    f.as_str(),
                ).concat("(&mut __registry);\n")
            },
            None => String::new(),
        },
        None => String::new(),
    }
}

/// An arity of an async function that has been compiled to a poll function.
#[derive(Debug)]
pub struct AsyncPollEntry {
    pub ns: String,
    pub name: String,
    pub arity: usize,
    pub symbol: String,
    pub n_slots: usize,
}

/// The declarations of the first `n` poll functions.
pub open spec fn poll_externs_text(polls: Seq<AsyncPollEntry>, n: int) -> Seq<char>
    decreases n,
{
    if n <= 0 || n > polls.len() {
        Seq::empty()
    } else {
        poll_externs_text(polls, n - 1) + ("        fn "@ + polls[n - 1].symbol@ + "(sm: *mut cljrs_async::state_machine::CljxStateMachine) -> i32;\n"@)
    }
}

/// The registration of a poll function.
pub open spec fn poll_text(e: AsyncPollEntry) -> Seq<char> {
    "        cljrs_async::state_machine::register_poll_fn_named("@ + debug_text(e.ns@) + ", "@ + debug_text(e.name@) + ", "@ + text::decimal(e.arity as nat)
        + ", std::mem::transmute::<unsafe extern \"C\" fn(*mut cljrs_async::state_machine::CljxStateMachine) -> i32, cljrs_async::state_machine::PollFn>("@ + e.symbol@ + "), "@
        + text::decimal(e.n_slots as nat) + ");\n"@
}

/// The registrations of the first `n` poll functions.
pub open spec fn poll_calls_text(polls: Seq<AsyncPollEntry>, n: int) -> Seq<char>
    decreases n,
{
    if n <= 0 || n > polls.len() { Seq::empty() } else { poll_calls_text(polls, n - 1) + poll_text(polls[n - 1]) }
}

/// The registration of poll functions.
pub open spec fn polls_text(polls: Seq<AsyncPollEntry>) -> Seq<char> {
    if polls.len() == 0 {
        Seq::empty()
    } else {
        "\n    // Register AOT-compiled async poll functions.\n    unsafe extern \"C\" {\n"@ + poll_externs_text(polls, polls.len() as int) + "    }\n    unsafe {\n"@
            + poll_calls_text(polls, polls.len() as int) + "    }\n"@
    }
}

fn poll_line(e: &AsyncPollEntry) -> (r: String)
    ensures
        r@ == poll_text(*e),
{
    "        cljrs_async::state_machine::register_poll_fn_named(".to_owned().concat(quoted(e.ns.as_str()).as_str()).concat(", ").concat(quoted(e.name.as_str()).as_str()).concat(
        ", ",
    ).concat(render_decimal(e.arity as u64).as_str()).concat(
        ", std::mem::transmute::<unsafe extern \"C\" fn(*mut cljrs_async::state_machine::CljxStateMachine) -> i32, cljrs_async::state_machine::PollFn>(",
    ).concat(e.symbol.as_str()).concat("), ").concat(render_decimal(e.n_slots as u64).as_str()).concat(");\n")
}

/// The registration of poll functions: each is declared, and registered by namespace, name and
/// arity.
pub fn poll_registration(polls: &Vec<AsyncPollEntry>) -> (r: String)
    ensures
        r@ == polls_text(polls@),
{
    if polls.len() == 0 {
        return String::new();
    }
    let mut externs = String::new();
    let mut calls = String::new();
    let mut i: usize = 0;
    while i < polls.len()
        invariant
            i <= polls@.len(),
            externs@ == poll_externs_text(polls@, i as int),
            calls@ == poll_calls_text(polls@, i as int),
        decreases polls@.len() - i,
    {
        externs = externs.concat(
            "        fn ".to_owned().concat(polls[i].symbol.as_str()).concat("(sm: *mut cljrs_async::state_machine::CljxStateMachine) -> i32;\n").as_str(),
        );
        calls = calls.concat(poll_line(&polls[i]).as_str());
        i += 1;
    }
    "\n    // Register AOT-compiled async poll functions.\n    unsafe extern \"C\" {\n".to_owned().concat(externs.as_str()).concat("    }\n    unsafe {\n").concat(calls.as_str()).concat(
        "    }\n",
    )
}

/// The main file.
pub open spec fn main_text(has_preamble: bool, es: Seq<Extension>, bundled: Seq<Bundled>, namespaces: Seq<CompiledNamespace>, polls: Seq<AsyncPollEntry>, config: Option<RustConfig>) -> Seq<char> {
    let preamble = if has_preamble { template::RUN_PREAMBLE@ } else { Seq::empty() };
    template::MAIN_HEAD@ + externs_text(namespaces, namespaces.len() as int) + template::MAIN_RUN@ + polls_text(polls) + template::MAIN_INIT@
        + added_calls(es, es.len() as int) + template::MAIN_BUNDLED@ + bundled_text(bundled, bundled.len() as int) + template::MAIN_LOADERS@ + loaders_text(namespaces, namespaces.len() as int) + native_init_text(config)
        + template::MAIN_ENV@ + preamble + template::MAIN_CALL@ + template::CALL_MAIN@ + template::MAIN_TAIL@
}

/// The main file: it sets up the runtime, registers what goes with the program, evaluates the
/// preamble, and calls the compiled code.
pub fn main_file(has_preamble: bool, extensions: &ExtensionSet, bundled: &Vec<Bundled>, namespaces: &Vec<CompiledNamespace>, polls: &Vec<AsyncPollEntry>, config: &Option<RustConfig>) -> (r: String)
    ensures
        r@ == main_text(has_preamble, extensions@, bundled@, namespaces@, polls@, *config),
{
    let (_, calls) = added_extensions(&HarnessDeps::Published(String::new()), extensions);
    let preamble = if has_preamble { template::RUN_PREAMBLE.to_owned() } else { String::new() };
    template::MAIN_HEAD.to_owned().concat(init_externs(namespaces).as_str()).concat(template::MAIN_RUN).concat(poll_registration(polls).as_str()).concat(template::MAIN_INIT).concat(calls.as_str()).concat(template::MAIN_BUNDLED).concat(
        bundled_registration(bundled).as_str(),
    ).concat(template::MAIN_LOADERS).concat(loaders(namespaces).as_str()).concat(native_init(config).as_str()).concat(template::MAIN_ENV).concat(preamble.as_str()).concat(
        template::MAIN_CALL,
    ).concat(template::CALL_MAIN).concat(template::MAIN_TAIL)
}

/// A file of the project, by its path inside.
#[derive(Debug)]
pub struct HarnessFile {
    pub path: String,
    pub contents: String,
}

/// A path and contents.
pub type FileView = (Seq<char>, Seq<char>);

/// The paths and contents of files.
pub open spec fn files_view(files: Seq<HarnessFile>) -> Seq<FileView> {
    files.map_values(|f: HarnessFile| (f.path@, f.contents@))
}

/// The files of the first `n` bundled sources.
pub open spec fn bundled_files(bundled: Seq<Bundled>, n: int) -> Seq<FileView>
    decreases n,
{
    if n <= 0 || n > bundled.len() { Seq::empty() } else { bundled_files(bundled, n - 1).push(("src/"@ + versioned_file((n - 1) as nat), bundled[n - 1].source@)) }
}

/// The files of the preambles of the first `n` namespaces.
pub open spec fn preamble_files(namespaces: Seq<CompiledNamespace>, n: int) -> Seq<FileView>
    decreases n,
{
    if n <= 0 || n > namespaces.len() { Seq::empty() } else { preamble_files(namespaces, n - 1).push(("src/"@ + preamble_file((n - 1) as nat), namespaces[n - 1].preamble@)) }
}

/// The files of the project beside the object file.
pub open spec fn project_files(
    deps: HarnessDeps,
    object: Seq<char>,
    preamble: Seq<char>,
    es: Seq<Extension>,
    bundled: Seq<Bundled>,
    namespaces: Seq<CompiledNamespace>,
    polls: Seq<AsyncPollEntry>,
    config: Option<RustConfig>,
) -> Seq<FileView> {
    let head = seq![
        ("Cargo.toml"@, manifest_text(deps, es, config)),
        ("build.rs"@, template::BUILD_HEAD@ + object + template::BUILD_AGAIN@ + object + template::BUILD_TAIL@),
    ];
    let own = if preamble.len() > 0 { seq![("src/preamble.cljrs"@, preamble)] } else { Seq::empty() };
    head + own + bundled_files(bundled, bundled.len() as int) + preamble_files(namespaces, namespaces.len() as int) + seq![
        ("src/main.rs"@, main_text(preamble.len() > 0, es, bundled, namespaces, polls, config)),
    ]
}

fn add_file(out: &mut Vec<HarnessFile>, path: String, contents: String)
    ensures
        files_view(final(out)@) == files_view(old(out)@).push((path@, contents@)),
{
    out.push(HarnessFile { path, contents });
    assert(files_view(out@) =~= files_view(old(out)@).push((path@, contents@)));
}

/// The files of the project that links the object file at `object` with the runtime, in the order
/// in which they are written.
pub fn build_harness(
    deps: &HarnessDeps,
    object: &str,
    interpreted_source: &str,
    extensions: &ExtensionSet,
    bundled: &Vec<Bundled>,
    namespaces: &Vec<CompiledNamespace>,
    polls: &Vec<AsyncPollEntry>,
    config: &Option<RustConfig>,
) -> (r: Vec<HarnessFile>)
    ensures
        files_view(r@) == project_files(*deps, object@, interpreted_source@, extensions@, bundled@, namespaces@, polls@, *config),
{
    let mut out: Vec<HarnessFile> = Vec::new();
    assert(files_view(out@) =~= Seq::empty());
    add_file(&mut out, "Cargo.toml".to_owned(), manifest(deps, extensions, config));
    add_file(&mut out, "build.rs".to_owned(), build_file(object));
    let ghost head = files_view(out@);
    let source = to_chars(interpreted_source);
    let has_preamble = source.len() > 0;
    let ghost own: Seq<FileView> = if has_preamble { seq![("src/preamble.cljrs"@, interpreted_source@)] } else { Seq::empty() };
    if has_preamble {
        add_file(&mut out, "src/preamble.cljrs".to_owned(), interpreted_source.to_owned());
    }
    assert(files_view(out@) =~= head + own + bundled_files(bundled@, 0));
    let mut i: usize = 0;
    while i < bundled.len()
        invariant
            i <= bundled@.len(),
            files_view(out@) == head + own + bundled_files(bundled@, i as int),
        decreases bundled@.len() - i,
    {
        let ghost before = files_view(out@);
        add_file(&mut out, "src/".to_owned().concat(versioned_file_name(i).as_str()), bundled[i].source.clone());
        assert(files_view(out@) =~= head + own + bundled_files(bundled@, i + 1));
        i += 1;
    }
    let ghost mid = files_view(out@);
    assert(mid =~= mid + preamble_files(namespaces@, 0));
    let mut i: usize = 0;
    while i < namespaces.len()
        invariant
            i <= namespaces@.len(),
            files_view(out@) == mid + preamble_files(namespaces@, i as int),
        decreases namespaces@.len() - i,
    {
        add_file(&mut out, "src/".to_owned().concat(preamble_file_name(i).as_str()), namespaces[i].preamble.clone());
        assert(files_view(out@) =~= mid + preamble_files(namespaces@, i + 1));
        i += 1;
    }
    let ghost most = files_view(out@);
    add_file(&mut out, "src/main.rs".to_owned(), main_file(has_preamble, extensions, bundled, namespaces, polls, config));
    assert(files_view(out@) =~= project_files(*deps, object@, interpreted_source@, extensions@, bundled@, namespaces@, polls@, *config));
    out
}

/// The arguments of the build: without network where the project does not need it.
pub open spec fn build_args_view(offline: bool) -> Seq<Seq<char>> {
    if offline { seq!["build"@, "--release"@, "--offline"@] } else { seq!["build"@, "--release"@] }
}

/// The texts of a list.
pub open spec fn texts(ts: Seq<String>) -> Seq<Seq<char>> {
    ts.map_values(|t: String| t@)
}

/// The arguments of the build.
pub fn build_args(offline: bool) -> (r: Vec<String>)
    ensures
        texts(r@) == build_args_view(offline),
{
    let mut out: Vec<String> = Vec::new();
    out.push("build".to_owned());
    out.push("--release".to_owned());
    if offline {
        out.push("--offline".to_owned());
    }
    assert(texts(out@) =~= build_args_view(offline));
    out
}

/// The file of the `i`th namespace of a test runner.
pub open spec fn test_file(i: nat) -> Seq<char> {
    "bundled_"@ + text::decimal(i) + ".cljrs"@
}

/// The file of the `i`th namespace of a test runner.
pub fn test_file_name(i: usize) -> (r: String)
    ensures
        r@ == test_file(i as nat),
{
    "bundled_".to_owned().concat(render_decimal(i as u64).as_str()).concat(".cljrs")
}

/// The registration of the first `n` namespaces of a test runner.
pub open spec fn test_bundled_text(namespaces: Seq<Seq<char>>, n: int) -> Seq<char>
    decreases n,
{
    if n <= 0 || n > namespaces.len() {
        Seq::empty()
    } else {
        test_bundled_text(namespaces, n - 1) + ("    globals.register_builtin_source(\""@ + namespaces[n - 1] + "\", include_str!(\""@ + test_file((n - 1) as nat) + "\"));\n"@)
    }
}

/// The registration of the namespaces of a test runner.
pub fn test_registration(namespaces: &Vec<String>) -> (r: String)
    ensures
        r@ == test_bundled_text(texts(namespaces@), namespaces@.len() as int),
{
    let mut out = String::new();
    let mut i: usize = 0;
    while i < namespaces.len()
        invariant
            i <= namespaces@.len(),
            out@ == test_bundled_text(texts(namespaces@), i as int),
        decreases namespaces@.len() - i,
    {
        let line = "    globals.register_builtin_source(\"".to_owned().concat(namespaces[i].as_str()).concat("\", include_str!(\"").concat(test_file_name(i).as_str()).concat(
            "\"));\n",
        );
        assert(texts(namespaces@)[i as int] == namespaces@[i as int]@);
        out = out.concat(line.as_str());
        i += 1;
    }
    out
}

/// The first `n` namespaces, as literals on lines of their own.
pub open spec fn test_list_text(namespaces: Seq<Seq<char>>, n: int) -> Seq<char>
    decreases n,
{
    if n <= 0 || n > namespaces.len() { Seq::empty() } else { test_list_text(namespaces, n - 1) + ("        \""@ + namespaces[n - 1] + "\",\n"@) }
}

/// The main file of a test runner.
pub open spec fn test_main_text(namespaces: Seq<Seq<char>>, registration: Seq<char>) -> Seq<char> {
    template::TEST_HEAD@ + registration + template::TEST_ENV@ + test_list_text(namespaces, namespaces.len() as int) + template::TEST_TAIL@
}

/// The main file of a test runner, which loads, tests and unloads one namespace after the other.
pub fn generate_test_harness_code(namespaces: &Vec<String>, bundled_registration: &str) -> (r: String)
    ensures
        r@ == test_main_text(texts(namespaces@), bundled_registration@),
{
    let mut list = String::new();
    let mut i: usize = 0;
    while i < namespaces.len()
        invariant
            i <= namespaces@.len(),
            list@ == test_list_text(texts(namespaces@), i as int),
        decreases namespaces@.len() - i,
    {
        assert(texts(namespaces@)[i as int] == namespaces@[i as int]@);
        list = list.concat("        \"".to_owned().concat(namespaces[i].as_str()).concat("\",\n").as_str());
        i += 1;
    }
    template::TEST_HEAD.to_owned().concat(bundled_registration).concat(template::TEST_ENV).concat(list.as_str()).concat(template::TEST_TAIL)
}

/// Every text comes no later than those behind it.
pub open spec fn ascends(ts: Seq<Seq<char>>) -> bool {
    forall|i: int, j: int| 0 <= i < j < ts.len() ==> !text::less(#[trigger] ts[j], #[trigger] ts[i])
}

proof fn inserted_is_counted(ts: Seq<Seq<char>>, i: int, t: Seq<char>)
    requires
        0 <= i <= ts.len(),
    ensures
        ts.insert(i, t).to_multiset() == ts.to_multiset().insert(t),
{
    broadcast use vstd::seq_lib::group_to_multiset_ensures;
    let all = ts.insert(i, t);
    assert(all.remove(i) =~= ts);
    assert(all.remove(i).to_multiset() == all.to_multiset().remove(t));
    assert(all[i] == t);
    assert(all.contains(t));
    assert(all.to_multiset().count(t) > 0);
    assert(all.to_multiset() =~= ts.to_multiset().insert(t));
}

fn insert_text(out: &mut Vec<String>, t: String)
    requires
        ascends(texts(old(out)@)),
    ensures
        ascends(texts(final(out)@)),
        texts(final(out)@).to_multiset() == texts(old(out)@).to_multiset().insert(t@),
{
    let ghost before = texts(out@);
    let mut i: usize = out.len();
    while i > 0 && less_text(t.as_str(), out[i - 1].as_str())
        invariant
            i <= out@.len(),
            before == texts(out@),
            ascends(before),
            forall|k: int| i <= k < before.len() ==> text::less(t@, #[trigger] before[k]),
        decreases i,
    {
        assert(before[i - 1] == out@[i - 1]@);
        i -= 1;
    }
    proof {
        if i > 0 {
            assert(before[i - 1] == out@[i - 1]@);
            assert(!text::less(t@, before[i - 1]));
        }
        inserted_is_counted(before, i as int, t@);
    }
    out.insert(i, t);
    proof {
        let after = texts(out@);
        assert(after =~= before.insert(i as int, t@));
        assert forall|a: int, b: int| 0 <= a < b < after.len() implies !text::less(#[trigger] after[b], #[trigger] after[a]) by {
            if b == i {
                assert(after[a] == before[a]);
                if a < i - 1 {
                    assert(!text::less(before[i - 1], before[a]));
                    text::less_orders(t@, before[a], before[i - 1]);
                    text::less_orders(before[a], before[i - 1], t@);
                }
            } else if a == i {
                assert(after[b] == before[b - 1]);
                text::less_orders(t@, before[b - 1], t@);
            } else {
                let x = if a < i { a } else { a - 1 };
                let y = if b < i { b } else { b - 1 };
                assert(after[a] == before[x] && after[b] == before[y]);
            }
        }
    }
}

/// The texts in order.
pub fn sort_texts(ts: Vec<String>) -> (r: Vec<String>)
    ensures
        ascends(texts(r@)),
        texts(r@).to_multiset() == texts(ts@).to_multiset(),
{
    let mut out: Vec<String> = Vec::new();
    let mut i: usize = 0;
    assert(texts(out@) =~= texts(ts@).take(0));
    while i < ts.len()
        invariant
            i <= ts@.len(),
            ascends(texts(out@)),
            texts(out@).to_multiset() == texts(ts@).take(i as int).to_multiset(),
        decreases ts@.len() - i,
    {
        proof {
            vstd::seq_lib::to_multiset_build(texts(ts@).take(i as int), ts@[i as int]@);
        }
        insert_text(&mut out, ts[i].clone());
        assert(texts(ts@).take(i + 1) =~= texts(ts@).take(i as int).push(ts@[i as int]@));
        i += 1;
    }
    assert(texts(ts@).take(ts@.len() as int) =~= texts(ts@));
    out
}

/// The texts among the first `n`, each where it occurs first.
pub open spec fn distinct(ts: Seq<Seq<char>>, n: int) -> Seq<Seq<char>>
    decreases n,
{
    if n <= 0 || n > ts.len() {
        Seq::empty()
    } else if distinct(ts, n - 1).contains(ts[n - 1]) {
        distinct(ts, n - 1)
    } else {
        distinct(ts, n - 1).push(ts[n - 1])
    }
}

pub(crate) fn is_in(ts: &Vec<String>, t: &str) -> (r: bool)
    ensures
        r == texts(ts@).contains(t@),
{
    let mut i: usize = 0;
    while i < ts.len()
        invariant
            i <= ts@.len(),
            forall|k: int| 0 <= k < i ==> (#[trigger] ts@[k])@ != t@,
        decreases ts@.len() - i,
    {
        if same(ts[i].as_str(), t) {
            assert(texts(ts@)[i as int] == t@);
            return true;
        }
        i += 1;
    }
    proof {
        if texts(ts@).contains(t@) {
            let k = choose|k: int| 0 <= k < texts(ts@).len() && texts(ts@)[k] == t@;
            assert(ts@[k]@ == t@);
        }
    }
    false
}

fn add_distinct(out: &mut Vec<String>, ts: &Vec<String>, Ghost(all): Ghost<Seq<Seq<char>>>, Ghost(from): Ghost<int>)
    requires
        0 <= from,
        from + ts@.len() <= all.len(),
        all.subrange(from, from + ts@.len()) == texts(ts@),
        texts(old(out)@) == distinct(all, from),
    ensures
        texts(final(out)@) == distinct(all, from + ts@.len()),
{
    let mut i: usize = 0;
    while i < ts.len()
        invariant
            i <= ts@.len(),
            0 <= from,
            from + ts@.len() <= all.len(),
            all.subrange(from, from + ts@.len()) == texts(ts@),
            texts(out@) == distinct(all, from + i),
        decreases ts@.len() - i,
    {
        assert(all[from + i] == all.subrange(from, from + ts@.len())[i as int]);
        assert(texts(ts@)[i as int] == ts@[i as int]@);
        if !is_in(out, ts[i].as_str()) {
            let ghost before = texts(out@);
            out.push(ts[i].clone());
            assert(texts(out@) =~= before.push(ts@[i as int]@));
        }
        i += 1;
    }
}

/// The namespaces that go with a test runner: those of the sources, and behind them those of the
/// tests, each once.
pub fn all_namespaces(sources: &Vec<String>, tests: &Vec<String>) -> (r: Vec<String>)
    ensures
        texts(r@) == distinct(texts(sources@) + texts(tests@), (sources@.len() + tests@.len()) as int),
{
    let ghost all = texts(sources@) + texts(tests@);
    let mut out: Vec<String> = Vec::new();
    assert(texts(out@) =~= Seq::empty());
    assert(all.subrange(0, sources@.len() as int) =~= texts(sources@));
    assert(all.subrange(sources@.len() as int, (sources@.len() + tests@.len()) as int) =~= texts(tests@));
    add_distinct(&mut out, sources, Ghost(all), Ghost(0));
    add_distinct(&mut out, tests, Ghost(all), Ghost(sources@.len() as int));
    out
}

/// No text occurs twice among the distinct ones, and none is lost.
pub proof fn distinct_keeps_each_once(ts: Seq<Seq<char>>, n: int)
    requires
        0 <= n <= ts.len(),
    ensures
        distinct(ts, n).no_duplicates(),
        forall|t: Seq<char>| #[trigger] distinct(ts, n).contains(t) == ts.take(n).contains(t),
    decreases n,
{
    if n > 0 {
        distinct_keeps_each_once(ts, n - 1);
        let a = distinct(ts, n - 1);
        let b = distinct(ts, n);
        let p = ts.take(n - 1);
        let q = ts.take(n);
        assert(q =~= p.push(ts[n - 1]));
        assert forall|t: Seq<char>| #[trigger] b.contains(t) == q.contains(t) by {
            if p.contains(t) {
                let k = choose|k: int| 0 <= k < p.len() && p[k] == t;
                assert(q[k] == t);
                assert(a.contains(t));
            }
            if a.contains(t) {
                let k = choose|k: int| 0 <= k < a.len() && a[k] == t;
                assert(b[k] == t);
            }
            if t == ts[n - 1] {
                assert(q[n - 1] == t);
                if !a.contains(t) {
                    assert(b[a.len() as int] == t);
                }
            }
            if q.contains(t) && t != ts[n - 1] {
                let k = choose|k: int| 0 <= k < q.len() && q[k] == t;
                assert(p[k] == t);
            }
            if b.contains(t) && t != ts[n - 1] {
                let k = choose|k: int| 0 <= k < b.len() && b[k] == t;
                assert(a[k] == t);
            }
        }
    }
}

/// Where the extension of a file starts: at the last dot, unless a directory follows it or nothing
/// precedes it in the name of the file.
pub open spec fn stem_end(path: Seq<char>, sep: char, from: int) -> int
    decreases from,
{
    if from <= 0 || from > path.len() || path[from - 1] == sep {
        path.len() as int
    } else if path[from - 1] == '.' {
        if from >= 2 && path[from - 2] != sep { from - 1 } else { path.len() as int }
    } else {
        stem_end(path, sep, from - 1)
    }
}

/// The namespace of a file, by its path below the root of the sources.
pub open spec fn namespace_text(path: Seq<char>, sep: char) -> Seq<char> {
    path.take(stem_end(path, sep, path.len() as int)).map_values(|c: char| if c == sep { '.' } else if c == '_' { '-' } else { c })
}

/// The namespace of a file, by its path below the root of the sources: directories are parts of the
/// name, and underscores are hyphens.
pub fn file_to_namespace(path: &str, sep: char) -> (r: String)
    ensures
        r@ == namespace_text(path@, sep),
{
    let cs = to_chars(path);
    let n: usize = cs.len();
    let mut end: usize = n;
    let mut from: usize = n;
    while from > 0 && cs[from - 1] != sep && cs[from - 1] != '.'
        invariant
            from <= n,
            n == cs@.len(),
            end == n,
            stem_end(cs@, sep, n as int) == stem_end(cs@, sep, from as int),
        decreases from,
    {
        from -= 1;
    }
    if from >= 2 && cs[from - 1] != sep && cs[from - 2] != sep {
        end = from - 1;
    }
    assert(end == stem_end(cs@, sep, n as int));
    let mut out = String::new();
    let mut i: usize = 0;
    let ghost want = namespace_text(path@, sep);
    assert(want.take(0) =~= Seq::empty());
    while i < end
        invariant
            i <= end,
            end <= n,
            n == cs@.len(),
            cs@ == path@,
            end == stem_end(cs@, sep, n as int),
            want == namespace_text(path@, sep),
            want.len() == end,
            out@ == want.take(i as int),
        decreases end - i,
    {
        let c = cs[i];
        out.push(if c == sep { '.' } else if c == '_' { '-' } else { c });
        assert(want.take(i + 1) =~= want.take(i as int).push(want[i as int]));
        i += 1;
    }
    assert(want.take(end as int) =~= want);
    out
}

/// The path of a namespace below the root of the sources, without extension.
pub open spec fn path_text(ns: Seq<char>) -> Seq<char> {
    ns.map_values(|c: char| if c == '.' { '/' } else if c == '-' { '_' } else { c })
}

/// The path of a namespace below the root of the sources, without extension.
pub fn namespace_to_path(ns: &str) -> (r: String)
    ensures
        r@ == path_text(ns@),
{
    let cs = to_chars(ns);
    let mut out = String::new();
    let mut i: usize = 0;
    assert(path_text(ns@).take(0) =~= Seq::empty());
    while i < cs.len()
        invariant
            i <= cs@.len(),
            cs@ == ns@,
            out@ == path_text(ns@).take(i as int),
        decreases cs@.len() - i,
    {
        let c = cs[i];
        out.push(if c == '.' { '/' } else if c == '-' { '_' } else { c });
        assert(path_text(ns@).take(i + 1) =~= path_text(ns@).take(i as int).push(path_text(ns@)[i as int]));
        i += 1;
    }
    assert(path_text(ns@).take(cs@.len() as int) =~= path_text(ns@));
    out
}

/// The names of the files that a namespace can be in, in the order in which they are tried.
pub fn source_files(ns: &str) -> (r: Vec<String>)
    ensures
        texts(r@) == seq![path_text(ns@) + ".cljrs"@, path_text(ns@) + ".cljc"@],
{
    let path = namespace_to_path(ns);
    let mut out: Vec<String> = Vec::new();
    out.push(path.clone().concat(".cljrs"));
    out.push(path.concat(".cljc"));
    assert(texts(out@) =~= seq![path_text(ns@) + ".cljrs"@, path_text(ns@) + ".cljc"@]);
    out
}

proof fn stem_ends_at(path: Seq<char>, dot: int, from: int)
    requires
        1 <= dot < from <= path.len(),
        path[dot] == '.',
        path[dot - 1] != '/',
        forall|k: int| dot < k < from ==> (#[trigger] path[k]) != '.' && path[k] != '/',
    ensures
        stem_end(path, '/', from) == dot,
    decreases from,
{
    if from - 1 > dot {
        stem_ends_at(path, dot, from - 1);
    }
}

/// A namespace is found again from its file: the file is at the path of the namespace, with an
/// extension.
pub proof fn a_namespace_is_found_by_its_file(ns: Seq<char>, ext: Seq<char>)
    requires
        ns.len() > 0,
        ns.last() != '.',
        !ns.contains('/'),
        !ns.contains('_'),
        !ext.contains('.'),
        !ext.contains('/'),
    ensures
        namespace_text(path_text(ns) + seq!['.'] + ext, '/') == ns,
{
    let path = path_text(ns) + seq!['.'] + ext;
    let dot = ns.len() as int;
    assert(path[dot] == '.');
    assert(path[dot - 1] == path_text(ns)[dot - 1]);
    assert(ns.contains(ns[dot - 1]));
    assert forall|k: int| dot < k < path.len() implies (#[trigger] path[k]) != '.' && path[k] != '/' by {
        let j = k - dot - 1;
        assert(path[k] == ext[j]);
        assert(ext.contains(ext[j]));
    }
    stem_ends_at(path, dot, path.len() as int);
    assert forall|k: int| 0 <= k < dot implies #[trigger] namespace_text(path, '/')[k] == ns[k] by {
        assert(path[k] == path_text(ns)[k]);
        assert(ns.contains(ns[k]));
    }
    assert(namespace_text(path, '/') =~= ns);
}

/// Whether a manifest declares a workspace.
pub fn is_workspace_manifest(contents: &str) -> (r: bool)
    ensures
        r == text::occurs(contents@, "[workspace"@),
{
    let cs = to_chars(contents);
    let pat = to_chars("[workspace");
    let n: usize = cs.len();
    let m: usize = pat.len();
    proof {
        reveal_strlit("[workspace");
    }
    let mut at: usize = 0;
    while n - at >= m
        invariant
            0 < m,
            at <= n,
            n == cs@.len(),
            m == pat@.len(),
            cs@ == contents@,
            pat@ == "[workspace"@,
            forall|k: int| 0 <= k < at ==> !text::occurs_at(cs@, pat@, k),
        decreases n - at,
    {
        let mut i: usize = 0;
        while i < m && cs[at + i] == pat[i]
            invariant
                i <= m,
                at + m <= n,
                n == cs@.len(),
                m == pat@.len(),
                forall|k: int| 0 <= k < i ==> cs@[at + k] == #[trigger] pat@[k],
            decreases m - i,
        {
            i += 1;
        }
        if i == m {
            assert(cs@.subrange(at as int, at + m) =~= pat@);
            assert(text::occurs_at(cs@, pat@, at as int));
            return true;
        }
        assert(!text::occurs_at(cs@, pat@, at as int)) by {
            if text::occurs_at(cs@, pat@, at as int) {
                assert(cs@.subrange(at as int, at + m)[i as int] == cs@[at + i]);
            }
        }
        at += 1;
    }
    false
}

} // verus!
