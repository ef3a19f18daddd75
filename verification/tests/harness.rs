use cljrs_compiler::aot::{async_poll_fns, compile_test_harness, discover_test_namespaces, find_workspace_root, init_symbol_name, is_source_extension, pin_namespace, plan_namespaces, preamble_of, required_namespaces, resolve_harness_deps, AotError, AsyncArity, AsyncFn, AsyncLowered, Lowered, Place, Required};
use cljrs_compiler::extensions::{Extension, ExtensionSet};
use cljrs_compiler::harness::{all_namespaces, build_args, build_file, build_harness, bundled_registration, file_to_namespace, generate_test_harness_code, init_externs, is_workspace_manifest, loader, loaders, main_file, manifest, namespace_to_path, native_init, poll_registration, preamble_file_name, sort_texts, source_files, test_manifest, test_registration, AsyncPollEntry, Bundled, CompiledNamespace, HarnessDeps, RustConfig};

const CARGO_PKG_VERSION: &str = "0.1.0";

fn texts(ts: &[&str]) -> Vec<String> {
    ts.iter().map(|t| t.to_string()).collect()
}

#[test]
fn workspace_deps_use_path() {
    let deps = HarnessDeps::Workspace("/checkout/clojurust".to_string());
    assert_eq!(
        deps.dep_line("cljrs-stdlib"),
        "cljrs-stdlib = { path = \"/checkout/clojurust/crates/cljrs-stdlib\" }\n"
    );
    // A checkout is built as it is, so the build may stay offline.
    assert!(deps.offline());
}

#[test]
fn published_deps_pin_exact_version() {
    let deps = HarnessDeps::Published("0.1.0".to_string());
    assert_eq!(deps.dep_line("cljrs-stdlib"), "cljrs-stdlib = \"=0.1.0\"\n");
    // Published crates may need fetching, so the build must allow network.
    assert!(!deps.offline());
}

#[test]
fn published_version_matches_this_crate() {
    if let HarnessDeps::Published(v) = resolve_harness_deps(None, CARGO_PKG_VERSION) {
        assert_eq!(v, CARGO_PKG_VERSION);
    } else {
        panic!("expected the published crates");
    }
}

#[test]
fn a_checkout_is_preferred_to_the_published_crates() {
    assert!(matches!(resolve_harness_deps(Some("/c".to_string()), "0.1.0"), HarnessDeps::Workspace(d) if d == "/c"));
}

#[test]
fn the_root_that_is_given_has_to_be_one() {
    let place = |dir: &str, is_workspace: bool| Place { dir: dir.to_string(), is_workspace };
    match find_workspace_root(&Some(place("/x", false)), &None, &Vec::new()) {
        Err(e) => assert_eq!(e.message(), "link error: CLJRS_WORKSPACE_ROOT=/x does not contain a Cargo.toml with [workspace]"),
        Ok(r) => panic!("expected an error, got {r:?}"),
    }
    let above = vec![place("/a/b", false), place("/a", true), place("/", true)];
    assert_eq!(find_workspace_root(&None, &Some(place("/z", false)), &above).ok(), Some(Some("/a".to_string())));
    assert_eq!(find_workspace_root(&None, &Some(place("/z", true)), &above).ok(), Some(Some("/z".to_string())));
    assert_eq!(find_workspace_root(&None, &None, &Vec::new()).ok(), Some(None));
    assert!(is_workspace_manifest("[package]\n[workspace]\n"));
    assert!(!is_workspace_manifest("[package]\nname = \"x\"\n"));
}

#[test]
fn the_manifest_names_the_runtime_and_the_native_crate() {
    let deps = HarnessDeps::Published("0.1.0".to_string());
    let plain = manifest(&deps, &ExtensionSet::new(), &None);
    assert!(plain.contains("cljrs-stdlib = \"=0.1.0\"\n"));
    assert!(plain.contains("tokio = "));
    assert!(!plain.contains("cljrs-interop"));
    let config = Some(RustConfig { crate_name: Some("mine".to_string()), crate_dir: "/m".to_string(), package: Some("mine-too".to_string()), init_fn: None });
    let native = manifest(&deps, &ExtensionSet::new(), &config);
    assert!(native.starts_with(&plain));
    assert!(native.ends_with("cljrs-interop = \"=0.1.0\"\nmine = { path = \"/m\", package = \"mine-too\" }\n"));
    assert!(!test_manifest(&deps).contains("cljrs-net"));
    assert!(build_file("/o/out.o").contains("/o/out.o"));
    assert_eq!(build_args(true), texts(&["build", "--release", "--offline"]));
    assert_eq!(build_args(false), texts(&["build", "--release"]));
}

#[test]
fn a_bundled_source_is_registered_under_its_name() {
    let bundled = vec![Bundled { ns: "my.ns@abc".to_string(), source: "(ns my.ns)".to_string() }];
    assert_eq!(
        bundled_registration(&bundled),
        "    globals.register_builtin_source(\"my.ns@abc\", include_str!(\"versioned_0.cljrs\"));\n"
    );
    let odd = vec![Bundled { ns: "a\"b".to_string(), source: String::new() }];
    assert!(bundled_registration(&odd).contains("\"a\\\"b\""));
}

fn two_namespaces() -> Vec<CompiledNamespace> {
    vec![
        CompiledNamespace { ns: "a".to_string(), init_symbol: Some("__cljrs_ns_init_0".to_string()), preamble: "(ns a)".to_string() },
        CompiledNamespace { ns: "b".to_string(), init_symbol: None, preamble: "(ns b)".to_string() },
    ]
}

#[test]
fn a_namespace_is_loaded_by_its_preamble_and_its_code() {
    let namespaces = two_namespaces();
    assert_eq!(init_externs(&namespaces), "    fn __cljrs_ns_init_0() -> *const Value;\n");
    let first = loader(&namespaces[0], 0);
    assert!(first.contains("register_compiled_ns_loader(\"a\""));
    assert!(first.contains("\"ns_0_preamble.cljrs\""));
    assert!(first.contains("\"<a>\""));
    assert!(first.contains("        unsafe { __cljrs_ns_init_0(); }\n"));
    assert!(!loader(&namespaces[1], 1).contains("unsafe"));
    assert_eq!(loaders(&namespaces), loader(&namespaces[0], 0) + &loader(&namespaces[1], 1));
    assert_eq!(preamble_file_name(1), "ns_1_preamble.cljrs");
}

#[test]
fn the_project_has_all_its_files() {
    let deps = HarnessDeps::Workspace("/c".to_string());
    let bundled = vec![Bundled { ns: "v".to_string(), source: "(ns v)".to_string() }];
    let namespaces = two_namespaces();
    let polls = vec![AsyncPollEntry { ns: "a".to_string(), name: "f".to_string(), arity: 1, symbol: "__cljrs_async_poll_0".to_string(), n_slots: 3 }];
    let files = build_harness(&deps, "/o.o", "(println 1)", &ExtensionSet::new(), &bundled, &namespaces, &polls, &None);
    let paths: Vec<&str> = files.iter().map(|f| f.path.as_str()).collect();
    assert!(paths.contains(&"Cargo.toml"));
    assert!(paths.contains(&"build.rs"));
    assert!(paths.contains(&"src/main.rs"));
    assert!(paths.contains(&"src/versioned_0.cljrs"));
    assert!(paths.contains(&"src/ns_0_preamble.cljrs"));
    let main = files.iter().find(|f| f.path == "src/main.rs").unwrap();
    assert_eq!(main.contents, main_file(true, &ExtensionSet::new(), &bundled, &namespaces, &polls, &None));
    assert!(main.contents.contains(&bundled_registration(&bundled)));
    assert!(main.contents.contains("__cljrs_async_poll_0"));
    assert!(poll_registration(&Vec::new()).is_empty());
    assert!(native_init(&None).is_empty());
}

#[test]
fn a_test_runner_names_its_namespaces() {
    let namespaces = texts(&["a-test", "b-test"]);
    let registration = test_registration(&namespaces);
    assert!(registration.contains("\"a-test\""));
    assert!(registration.contains("\"bundled_1.cljrs\""));
    let code = generate_test_harness_code(&namespaces, &registration);
    assert!(code.contains(&registration));
    assert!(code.contains("\"b-test\""));
}

#[test]
fn namespaces_and_files_correspond() {
    assert_eq!(file_to_namespace("my_app/core.cljrs", '/'), "my-app.core");
    assert_eq!(file_to_namespace("x.y/z", '/'), "x.y.z");
    assert_eq!(file_to_namespace(".hidden", '/'), ".hidden");
    assert_eq!(namespace_to_path("my-app.core"), "my_app/core");
    assert_eq!(source_files("my-app.core"), texts(&["my_app/core.cljrs", "my_app/core.cljc"]));
    assert!(is_source_extension("cljc"));
    assert!(!is_source_extension("clj"));
}

#[test]
fn names_are_sorted_and_kept_once() {
    assert_eq!(sort_texts(texts(&["b", "a", "c", "a"])), texts(&["a", "a", "b", "c"]));
    assert_eq!(all_namespaces(&texts(&["b", "a"]), &texts(&["a", "t"])).len(), 3);
}

#[test]
fn tests_come_from_the_test_directory_or_else_from_the_sources() {
    assert_eq!(discover_test_namespaces(texts(&["b", "a"]), texts(&["c"]), "/d").ok(), Some(texts(&["a", "b"])));
    assert_eq!(discover_test_namespaces(Vec::new(), texts(&["c"]), "/d").ok(), Some(texts(&["c"])));
    match discover_test_namespaces(Vec::new(), Vec::new(), "/d") {
        Err(e) => assert_eq!(e.message(), "eval/lowering error: No test files found in /d"),
        Ok(r) => panic!("expected an error, got {r:?}"),
    }
}

#[test]
fn every_namespace_is_compiled_or_interpreted() {
    let found = vec![
        Required { ns: "a".to_string(), source: "sa".to_string(), lowered: Lowered::Body("pa".to_string(), true) },
        Required { ns: "b".to_string(), source: "sb".to_string(), lowered: Lowered::Body("pb".to_string(), false) },
        Required { ns: "c".to_string(), source: "sc".to_string(), lowered: Lowered::Preamble("pc".to_string()) },
        Required { ns: "d".to_string(), source: "sd".to_string(), lowered: Lowered::Failed },
    ];
    let plan = plan_namespaces(&found);
    assert_eq!(plan.bodies, vec![0]);
    assert_eq!(plan.compiled.len(), 2);
    assert_eq!(plan.compiled[0].init_symbol, Some(init_symbol_name(0)));
    assert_eq!(plan.compiled[1].init_symbol, None);
    assert_eq!(plan.compiled[1].preamble, "pc");
    let interpreted: Vec<&str> = plan.interpreted.iter().map(|b| b.ns.as_str()).collect();
    assert_eq!(interpreted, vec!["b", "d"]);
}

#[test]
fn only_new_namespaces_are_required() {
    let loaded = texts(&["clojure.core", "user", "my.lib"]);
    let known = texts(&["clojure.core"]);
    let built_in = texts(&["user"]);
    assert_eq!(required_namespaces(&loaded, &known, &built_in), texts(&["my.lib"]));
    assert!(preamble_of(&texts(&["(ns a)", "(def x 1)"])).contains("(def x 1)"));
}

#[test]
fn polls_are_made_of_async_functions_without_captures() {
    let f = |ns: &str, is_async: bool, captures: usize, lowered: AsyncLowered| AsyncFn {
        var_ns: ns.to_string(),
        var_name: "f".to_string(),
        ns: ns.to_string(),
        name: None,
        is_async,
        captures,
        arities: vec![AsyncArity { params: 2, lowered }],
    };
    let fs = vec![
        f("user", true, 0, AsyncLowered::Poll(4)),
        f("user", true, 1, AsyncLowered::Poll(4)),
        f("user", false, 0, AsyncLowered::Poll(4)),
        f("clojure.core", true, 0, AsyncLowered::Poll(4)),
        f("user", true, 0, AsyncLowered::HasInner),
        f("user", true, 0, AsyncLowered::Poll(1)),
    ];
    let polls = async_poll_fns(&fs);
    assert_eq!(polls.len(), 2);
    assert_eq!(polls[0].symbol, "__cljrs_async_poll_0");
    assert_eq!((polls[0].arity, polls[0].n_slots), (2, 4));
    assert_eq!(polls[1].symbol, "__cljrs_async_poll_1");
}

#[test]
fn a_pin_refers_to_a_namespace_without_its_commit() {
    let aliases = vec![("s".to_string(), "my.lib@abc".to_string())];
    assert_eq!(pin_namespace(&Some("s".to_string()), "user", &aliases), "my.lib@abc");
    assert_eq!(pin_namespace(&Some("other".to_string()), "user", &aliases), "other");
    assert_eq!(pin_namespace(&None, "user", &aliases), "user");
}

#[test]
fn errors_are_reported_in_words() {
    let e = |t: &str| t.to_string();
    assert_eq!(AotError::Io(e("x")).message(), "I/O error: x");
    assert_eq!(AotError::Parse(e("x")).message(), "parse error: x");
    assert_eq!(AotError::Codegen(e("x")).message(), "codegen error: x");
    assert_eq!(AotError::Wasm(e("x")).message(), "wasm backend error: x");
    assert_eq!(AotError::NoGcBlacklist(Vec::new()).message(), "no-gc blacklist violations:\n");
}

#[test]
fn extensions_are_depended_on_and_registered() {
    let deps = HarnessDeps::Published("0.1.0".to_string());
    let set = ExtensionSet::new().with(Extension::new("cljrs-io", "cljrs_io::init")).with(Extension::new("my-ext", "my_ext::init"));
    let with = manifest(&deps, &set, &None);
    assert!(with.contains("my-ext = \"=0.1.0\"\n"));
    assert_eq!(with.matches("cljrs-io = ").count(), 1);
    let main = main_file(false, &set, &Vec::new(), &Vec::new(), &Vec::new(), &None);
    assert!(main.contains("    cljrs_base64::init(&globals);\n    my_ext::init(&globals);\n"));
    assert_eq!(main.matches("cljrs_io::init").count(), 1);
    assert_eq!(file_to_namespace("clojure/core_test/juxt.cljc", '/'), "clojure.core-test.juxt");
}

#[test]
fn a_test_runner_has_a_file_for_every_namespace() {
    let deps = HarnessDeps::Published("0.1.0".to_string());
    let found = |t: &str| Some(t.to_string());
    let files = compile_test_harness(&deps, &texts(&["t"]), &texts(&["a", "t"]), &vec![found("(ns a)"), found("(ns t)")]).unwrap();
    let paths: Vec<&str> = files.iter().map(|f| f.path.as_str()).collect();
    assert_eq!(paths, vec!["src/main.rs", "src/bundled_0.cljrs", "src/bundled_1.cljrs", "Cargo.toml", "build.rs"]);
    assert_eq!(files[2].contents, "(ns t)");
    assert!(files[0].contents.contains("register_builtin_source(\"t\", include_str!(\"bundled_1.cljrs\"));"));
    assert_eq!(files[3].contents, test_manifest(&deps));
    match compile_test_harness(&deps, &texts(&["t"]), &texts(&["a", "t"]), &vec![found("(ns a)"), None]) {
        Err(e) => assert_eq!(e.message(), "eval/lowering error: Could not find source for namespace t"),
        Ok(r) => panic!("expected an error, got {r:?}"),
    }
}
