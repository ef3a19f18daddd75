//! Extensions of the runtime that a program can need, and what a compilation is given.
use crate::harness;
use crate::harness::RustConfig;
use vstd::prelude::*;
use vstd::string::*;

verus! {

/// An extension of the runtime.
#[derive(Debug)]
pub struct Extension {
    /// The package that the linked project depends on.
    pub crate_name: String,
    /// The path of the function that registers the extension.
    pub init_path: String,
}

impl Extension {
    /// An extension.
    pub fn new(crate_name: &str, init_path: &str) -> (r: Extension)
        ensures
            r.crate_name@ == crate_name@,
            r.init_path@ == init_path@,
    {
        Extension { crate_name: crate_name.to_owned(), init_path: init_path.to_owned() }
    }

    /// The call that registers the extension.
    pub fn init_call(&self) -> (r: String)
        ensures
            r@ == call_text(*self),
    {
        "    ".to_owned().concat(self.init_path.as_str()).concat("(&globals);\n")
    }
}

/// The call that registers an extension.
pub open spec fn call_text(e: Extension) -> Seq<char> {
    "    "@ + e.init_path@ + "(&globals);\n"@
}

/// The calls that register the first `n` extensions.
pub open spec fn init_code(es: Seq<Extension>, n: int) -> Seq<char>
    decreases n,
{
    if n <= 0 || n > es.len() { Seq::empty() } else { init_code(es, n - 1) + call_text(es[n - 1]) }
}

/// The extensions of a compilation, in the order in which they are registered.
#[derive(Debug)]
pub struct ExtensionSet {
    extensions: Vec<Extension>,
}

impl View for ExtensionSet {
    type V = Seq<Extension>;

    closed spec fn view(&self) -> Seq<Extension> {
        self.extensions@
    }
}

impl Default for ExtensionSet {
    fn default() -> (r: ExtensionSet)
        ensures
            r@ == Seq::<Extension>::empty(),
    {
        ExtensionSet { extensions: Vec::new() }
    }
}

impl ExtensionSet {
    /// No extensions.
    pub fn new() -> (r: ExtensionSet)
        ensures
            r@ == Seq::<Extension>::empty(),
    {
        ExtensionSet { extensions: Vec::new() }
    }

    /// The extensions with one more behind them.
    pub fn with(self, extension: Extension) -> (r: ExtensionSet)
        ensures
            r@ == self@.push(extension),
    {
        let mut s = self;
        s.extensions.push(extension);
        s
    }

    /// Adds an extension behind the others.
    pub fn push(&mut self, extension: Extension)
        ensures
            final(self)@ == old(self)@.push(extension),
    {
        self.extensions.push(extension);
    }

    /// Whether there are no extensions.
    pub fn is_empty(&self) -> (r: bool)
        ensures
            r == (self@.len() == 0),
    {
        self.extensions.len() == 0
    }

    /// The number of extensions.
    pub fn len(&self) -> (r: usize)
        ensures
            r == self@.len(),
    {
        self.extensions.len()
    }

    /// The extensions in order.
    pub fn iter(&self) -> (r: &[Extension])
        ensures
            r@ == self@,
    {
        self.extensions.as_slice()
    }

    /// The packages that the linked project depends on, in order.
    pub fn crate_names(&self) -> (r: Vec<String>)
        ensures
            harness::texts(r@) == self@.map_values(|e: Extension| e.crate_name@),
    {
        let mut out: Vec<String> = Vec::new();
        let mut i: usize = 0;
        while i < self.extensions.len()
            invariant
                i <= self.extensions@.len(),
                self@ == self.extensions@,
                out@.len() == i,
                forall|k: int| 0 <= k < i ==> (#[trigger] out@[k])@ == self.extensions@[k].crate_name@,
            decreases self.extensions@.len() - i,
        {
            out.push(self.extensions[i].crate_name.clone());
            i += 1;
        }
        assert(harness::texts(out@) =~= self@.map_values(|e: Extension| e.crate_name@));
        out
    }

    /// The calls that register the extensions: one for each, in order.
    pub fn harness_init_code(&self) -> (r: String)
        ensures
            r@ == init_code(self@, self@.len() as int),
    {
        let mut out = String::new();
        let mut i: usize = 0;
        while i < self.extensions.len()
            invariant
                i <= self.extensions@.len(),
                self@ == self.extensions@,
                out@ == init_code(self@, i as int),
            decreases self.extensions@.len() - i,
        {
            out = out.concat(self.extensions[i].init_call().as_str());
            i += 1;
        }
        out
    }
}

/// What is registered first stays first: adding an extension leaves the calls of the others as they
/// are, and puts its own behind them.
pub proof fn calls_come_in_order(es: Seq<Extension>, e: Extension, n: int)
    requires
        0 <= n <= es.len(),
    ensures
        init_code(es.push(e), n) == init_code(es, n),
        n == es.len() ==> init_code(es.push(e), n + 1) == init_code(es, n) + ("    "@ + e.init_path@ + "(&globals);\n"@),
    decreases n,
{
    if n > 0 {
        calls_come_in_order(es, e, n - 1);
    }
    if n == es.len() {
        assert(init_code(es.push(e), n) == init_code(es, n)) by {
            if n > 0 {
                assert(es.push(e)[n - 1] == es[n - 1]);
            }
        }
    }
}

/// How readable the source in an artifact may be, on a scale of the host.
#[derive(Clone, Copy, Debug, PartialEq, Eq, Structural)]
pub struct OpacityPolicy {
    pub level: u32,
}

impl Default for OpacityPolicy {
    fn default() -> (r: OpacityPolicy)
        ensures
            r.level == 0,
    {
        OpacityPolicy { level: 0 }
    }
}

/// What a compilation is given beside its input and its output.
#[derive(Debug)]
pub struct CompileSession {
    src_dirs: Vec<String>,
    extensions: ExtensionSet,
    rust_config: Option<RustConfig>,
    verify_commit_signatures: bool,
    opacity: OpacityPolicy,
}

/// What a compilation is given.
pub struct SessionView {
    pub src_dirs: Seq<Seq<char>>,
    pub extensions: Seq<Extension>,
    pub rust_config: Option<RustConfig>,
    pub verify_commit_signatures: bool,
    pub opacity: OpacityPolicy,
}

impl View for CompileSession {
    type V = SessionView;

    closed spec fn view(&self) -> SessionView {
        SessionView {
            src_dirs: harness::texts(self.src_dirs@),
            extensions: self.extensions@,
            rust_config: self.rust_config,
            verify_commit_signatures: self.verify_commit_signatures,
            opacity: self.opacity,
        }
    }
}

impl CompileSession {
    /// A session with source directories and extensions, and else as little as there can be.
    pub fn new(src_dirs: Vec<String>, extensions: ExtensionSet) -> (r: CompileSession)
        ensures
            r@.src_dirs == harness::texts(src_dirs@),
            r@.extensions == extensions@,
            r@.rust_config is None,
            !r@.verify_commit_signatures,
            r@.opacity.level == 0,
    {
        CompileSession { src_dirs, extensions, rust_config: None, verify_commit_signatures: false, opacity: OpacityPolicy { level: 0 } }
    }

    /// The session with a native crate.
    pub fn rust_config(self, config: Option<RustConfig>) -> (r: CompileSession)
        ensures
            r@ == (SessionView { rust_config: config, ..self@ }),
    {
        let mut s = self;
        s.rust_config = config;
        s
    }

    /// The session with the signatures of pinned commits verified or not.
    pub fn verify_commit_signatures(self, enabled: bool) -> (r: CompileSession)
        ensures
            r@ == (SessionView { verify_commit_signatures: enabled, ..self@ }),
    {
        let mut s = self;
        s.verify_commit_signatures = enabled;
        s
    }

    /// The session with a policy on readable source.
    pub fn opacity(self, policy: OpacityPolicy) -> (r: CompileSession)
        ensures
            r@ == (SessionView { opacity: policy, ..self@ }),
    {
        let mut s = self;
        s.opacity = policy;
        s
    }

    /// The source directories.
    pub fn src_dirs(&self) -> (r: &[String])
        ensures
            harness::texts(r@) == self@.src_dirs,
    {
        self.src_dirs.as_slice()
    }

    /// The extensions.
    pub fn extensions(&self) -> (r: &ExtensionSet)
        ensures
            r@ == self@.extensions,
    {
        &self.extensions
    }

    /// The native crate, where there is one.
    pub fn rust_config_ref(&self) -> (r: Option<&RustConfig>)
        ensures
            match r {
                Some(c) => self@.rust_config == Some(*c),
                None => self@.rust_config is None,
            },
    {
        match &self.rust_config {
            Some(c) => Some(c),
            None => None,
        }
    }

    /// Whether the signatures of pinned commits are verified.
    pub fn verifies_commit_signatures(&self) -> (r: bool)
        ensures
            r == self@.verify_commit_signatures,
    {
        self.verify_commit_signatures
    }

    /// The policy on readable source.
    pub fn opacity_policy(&self) -> (r: OpacityPolicy)
        ensures
            r == self@.opacity,
    {
        self.opacity
    }

    /// Adds a source directory behind the others.
    pub fn add_src_dir(&mut self, dir: &str)
        ensures
            final(self)@ == (SessionView { src_dirs: old(self)@.src_dirs.push(dir@), ..old(self)@ }),
    {
        let ghost before = self.src_dirs@;
        self.src_dirs.push(dir.to_owned());
        assert(harness::texts(self.src_dirs@) =~= harness::texts(before).push(dir@));
    }
}

} // verus!
