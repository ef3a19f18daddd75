//! The fixed parts of the project that is linked with compiled code.
use vstd::prelude::*;

verus! {

/// The main file up to the compiled functions that it declares.
pub const MAIN_HEAD: &'static str = r#"//! Auto-generated AOT harness for clojurust.
//!
//! Initializes the runtime, then calls the compiled `__cljrs_main`.

#![allow(improper_ctypes)]

use cljrs_value::Value;

unsafe extern "C" {
    fn __cljrs_main() -> *const Value;
"#;

/// The main file up to the poll functions that it registers.
pub const MAIN_RUN: &'static str = r#"}

async fn run() {
    // Parse environment -X flags.
    cljrs_logging::set_feature_levels_from_env().unwrap();

    // Ensure all rt_* symbols are linked into the binary.
    cljrs_compiler::rt_abi::anchor_rt_symbols();

    // Initialize the standard environment so that rt_call and other
    // runtime bridge functions can look up builtins.
    let globals = cljrs_stdlib::standard_env();

    // Versioned namespaces resolve only from sources embedded at compile
    // time — an AOT binary never fetches from git at runtime.
    globals.set_versioned_offline(true);

    // Register the async runtime (clojure.core.async, ^:async dispatch, await).
    cljrs_async::init(&globals);
"#;

/// The main file up to the other extensions.
pub const MAIN_INIT: &'static str = r#"
    // Register I/O, networking, charset, and base64 namespaces.
    cljrs_io::init(&globals);
    cljrs_net::init(&globals);
    cljrs_charset::init(&globals);
    cljrs_base64::init(&globals);
"#;

/// The main file up to the bundled sources.
pub const MAIN_BUNDLED: &'static str = r#"
    // Register bundled dependency sources so require can find them
    // without needing source files on disk.
"#;

/// The main file up to the loaders of compiled namespaces.
pub const MAIN_LOADERS: &'static str = r#"
    // Register AOT-compiled namespace loaders so `require` runs their native
    // initializers instead of interpreting source.
"#;

/// The main file up to the preamble.
pub const MAIN_ENV: &'static str = r#"
    let mut env = cljrs_eval::Env::new(globals, "user");

    // Push an eval context so rt_call can dispatch through the interpreter.
    cljrs_env::callback::push_eval_context(&env);
"#;

/// The main file up to the call of `-main`.
pub const MAIN_CALL: &'static str = r#"
    // Call the compiled code.
    let _result = unsafe { __cljrs_main() };
"#;

/// The rest of the main file.
pub const MAIN_TAIL: &'static str = r#"
    // Pop the eval context.
    cljrs_env::callback::pop_eval_context();

    // If CLJRS_GC_STATS is set, dump GC stats to its target (stdout/file).
    cljrs_gc::dump_stats_from_env();
}

fn main() {
    // Run on a large-stack thread to avoid stack overflows in deeply recursive
    // Clojure code (macros, lazy sequences, recursive interpreting).
    const STACK_SIZE: usize = 64 * 1024 * 1024; // 64 MiB
    let thread = std::thread::Builder::new()
        .stack_size(STACK_SIZE)
        .spawn(|| {
            // Drive all async tasks (go blocks, ^:async fns, channels) on a
            // single-threaded Tokio LocalSet so GcPtr<!Send> values stay on
            // one OS thread throughout execution.
            let rt = tokio::runtime::Builder::new_current_thread()
                .enable_all()
                .build()
                .expect("failed to build Tokio runtime");
            let local = tokio::task::LocalSet::new();
            local.block_on(&rt, run());
        })
        .expect("failed to spawn main thread");
    if let Err(e) = thread.join() {
        std::panic::resume_unwind(e);
    }
}
"#;

/// The loader of a namespace, up to its name.
pub const LOADER_HEAD: &'static str = r#"    globals.register_compiled_ns_loader("#;

/// The loader up to the namespace that it runs in.
pub const LOADER_ENV: &'static str = r#", std::sync::Arc::new(
        |globals: &std::sync::Arc<cljrs_env::env::GlobalEnv>| -> cljrs_env::error::EvalResult<()> {
        let mut env = cljrs_eval::Env::new(globals.clone(), "#;

/// The loader up to the file of the preamble.
pub const LOADER_SOURCE: &'static str = r#");
        cljrs_env::callback::push_eval_context(&env);
        let preamble = include_str!("#;

/// The loader up to the label of the preamble.
pub const LOADER_PARSE: &'static str = r#");
        if !preamble.is_empty() {
            let mut parser = cljrs_reader::Parser::new(preamble.to_string(), "#;

/// The loader up to the call of the compiled code.
pub const LOADER_RUN: &'static str = r#".to_string());
            let forms = parser.parse_all().map_err(cljrs_env::error::EvalError::Read)?;
            for form in &forms {
                cljrs_eval::eval(form, &mut env)?;
            }
        }
        // Re-push the eval context with the (possibly updated) namespace before
        // running the compiled initializer.
        cljrs_env::callback::pop_eval_context();
        cljrs_env::callback::push_eval_context(&env);
"#;

/// The rest of the loader.
pub const LOADER_TAIL: &'static str = r#"        cljrs_env::callback::pop_eval_context();
        Ok(())
    }));
"#;

/// Calls `-main` with the arguments of the command line, where it is defined.
pub const CALL_MAIN: &'static str = r#"
    // Call -main if defined, forwarding command-line arguments (skip program name).
    {
        let __argv: Vec<String> = std::env::args().skip(1).collect();
        let __check = cljrs_reader::Parser::new(
            "(resolve '-main)".to_string(),
            "<main-check>".to_string(),
        )
        .parse_all()
        .ok()
        .and_then(|fs| cljrs_eval::eval(&fs[0], &mut env).ok());
        if let Some(r) = __check {
            if r != cljrs_value::Value::Nil {
                let escaped: Vec<String> = __argv
                    .iter()
                    .map(|a| {
                        let mut s = String::with_capacity(a.len() + 2);
                        s.push('"');
                        for ch in a.chars() {
                            match ch {
                                '"' => s.push_str("\\\""),
                                '\\' => s.push_str("\\\\"),
                                '\n' => s.push_str("\\n"),
                                '\r' => s.push_str("\\r"),
                                '\t' => s.push_str("\\t"),
                                c => s.push(c),
                            }
                        }
                        s.push('"');
                        s
                    })
                    .collect();
                let call = format!("(-main {})", escaped.join(" "));
                if let Ok(fs) = cljrs_reader::Parser::new(call, "<main>".to_string()).parse_all() {
                    match cljrs_eval::eval(&fs[0], &mut env) {
                        Ok(main_result) => {
                            // If -main is ^:async it returns a Future; await it on the
                            // current LocalSet so all spawned go-blocks drain to completion.
                            if let Err(e) = cljrs_async::eval_async::await_value(main_result).await {
                                eprintln!("cljrs: error in -main: {e:?}");
                                std::process::exit(1);
                            }
                        }
                        Err(e) => {
                            eprintln!("cljrs: error in -main: {e:?}");
                            std::process::exit(1);
                        }
                    }
                }
            }
        }
    }
"#;

/// Evaluates the preamble.
pub const RUN_PREAMBLE: &'static str = r#"
    // Evaluate interpreted preamble (ns, require, defn, defmacro, etc.).
    let preamble = include_str!("preamble.cljrs");
    let mut parser = cljrs_reader::Parser::new(preamble.to_string(), "<preamble>".to_string());
    let forms = parser.parse_all().expect("preamble parse error");
    for form in &forms {
        cljrs_eval::eval(form, &mut env).expect("preamble eval error");
    }
    // Re-push eval context with updated namespace (ns form may have changed it).
    cljrs_env::callback::pop_eval_context();
    cljrs_env::callback::push_eval_context(&env);
"#;

/// The manifest up to the crates of the runtime.
pub const MANIFEST_HEAD: &'static str = r#"[package]
name = "cljrs-aot-harness"
version = "0.1.0"
edition = "2024"

[workspace]

[dependencies]
"#;

/// The manifest up to the native crate.
pub const MANIFEST_TOKIO: &'static str = r#"tokio = { version = "1", features = ["rt", "time", "net", "io-util"] }
"#;

/// The manifest of the test runner up to the crates of the runtime.
pub const TEST_MANIFEST_HEAD: &'static str = r#"[package]
name = "cljrs-aot-harness"
version = "0.1.0"
edition = "2021"

[workspace]

[dependencies]
"#;

/// The build file up to the object file.
pub const BUILD_HEAD: &'static str = r#"fn main() {
    // Link the AOT-compiled object file.
    println!("cargo:rustc-link-arg="#;

/// The build file up to the object file again.
pub const BUILD_AGAIN: &'static str = r#"");
    println!("cargo:rerun-if-changed="#;

/// The rest of the build file.
pub const BUILD_TAIL: &'static str = r#"");
}"#;

/// The build file of the test runner.
pub const TEST_BUILD: &'static str = r#"fn main() {
    // No special linking needed for test harness
}"#;

/// The test runner up to the bundled sources.
pub const TEST_HEAD: &'static str = r#"//! Auto-generated AOT test harness for clojurust.
//!
//! Discovers and runs all clojure.test tests in the bundled namespaces.

use cljrs_value::Value;

fn run() {
    // Set -X flags from environment.
    cljrs_logging::set_feature_levels_from_env().unwrap();

    // Initialize the standard environment without IR lowering.
    // The test harness interprets Clojure at runtime; there is no benefit to
    // eagerly compiling test functions to IR, and doing so fills IR_CACHE with
    // entries that are never evicted (non-GC memory, leaks across all 233 namespaces).
    let globals = cljrs_stdlib::standard_env_no_ir();

    // Override GC soft limit to a small value so the collector fires during
    // test execution.  standard_env_no_ir() calls set_config_from_env() which
    // defaults to system_memory/3 (often 5+ GB); at that level memory_in_use
    // (which only tracks GcBox sizes) never reaches the threshold, GC never
    // runs, and all temporary Values + freed namespace closures accumulate.
    // 64 MB is enough to trigger multiple collections per namespace test while
    // adding negligible overhead (<1%).  CLJRS_GC_SOFT_LIMIT_MB overrides the
    // 64 MB default for debugging/profiling.
    {
        let soft_mb: usize = std::env::var("CLJRS_GC_SOFT_LIMIT_MB")
            .ok()
            .and_then(|s| s.parse().ok())
            .unwrap_or(64);
        cljrs_gc::HEAP.set_config(std::sync::Arc::new(
            cljrs_gc::GcConfig::with_limits(
                soft_mb * 1024 * 1024,
                soft_mb * 2 * 1024 * 1024,
            ),
        ));
    }

    // Register bundled dependency sources so require can find them
    // without needing source files on disk.
"#;

/// The test runner up to the namespaces that it runs.
pub const TEST_ENV: &'static str = r#"    let mut env = cljrs_eval::Env::new(globals, "user");

    // Push an eval context so rt_call can dispatch through the interpreter.
    cljrs_env::callback::push_eval_context(&env);

    // Load clojure.test once; it stays loaded for the entire run.
    // push_alloc_frame() scopes transient eval allocations: after the frame
    // drops, those GcBoxes are removed from ALLOC_ROOTS.  The namespace objects
    // themselves stay alive via globals.namespaces, so GC can still trace them.
    {
        let _frame = cljrs_gc::push_alloc_frame();
        let _ = cljrs_eval::eval(
            &cljrs_reader::Parser::new(
                "(require 'clojure.test)".to_string(),
                "<test-harness>".to_string()
            ).parse_all().unwrap()[0],
            &mut env
        );
    }

    // Load, test, and unload each test namespace one at a time.
    //
    // Memory strategy: each test namespace and all its vars/closures are
    // removed from GlobalEnv after its tests finish, then two explicit GC
    // cycles free the now-unreachable objects.  Two cycles are required
    // because GC_INITIAL_LIVES=2 gives objects one grace cycle before they
    // are actually freed.  This keeps peak RSS proportional to one namespace
    // at a time rather than all 233 simultaneously.
    let mut total_pass = 0i64;
    let mut total_fail = 0i64;
    let mut total_error = 0i64;
    let mut total_test_count = 0i64;

    for ns_str in &[
"#;

/// The rest of the test runner.
pub const TEST_TAIL: &'static str = r#"    ] {
        // Load this test namespace.  push_alloc_frame() scopes all GcBox
        // allocations made during require: when the frame drops, those entries
        // are removed from ALLOC_ROOTS so GC treats them as non-roots.  The
        // namespace vars/closures remain reachable via globals.namespaces and
        // are kept alive by GC tracing through that reference; purely transient
        // allocations from eval become eligible for collection immediately.
        {
            let _frame = cljrs_gc::push_alloc_frame();
            let _ = cljrs_eval::eval(
                &cljrs_reader::Parser::new(
                    format!("(require '{})", ns_str).to_string(),
                    "<test-harness>".to_string()
                ).parse_all().unwrap()[0],
                &mut env
            );
        }

        // Run its tests.  Same alloc-frame scoping so transient test
        // infrastructure objects are freed after each namespace.
        let run_result = {
            let _frame = cljrs_gc::push_alloc_frame();
            cljrs_eval::eval(
                &cljrs_reader::Parser::new(
                    format!("(clojure.test/run-tests '{})", ns_str).to_string(),
                    "<run-tests>".to_string()
                ).parse_all().unwrap()[0],
                &mut env
            )
        };
        if let Ok(Value::Map(m)) = run_result {
            let mut pass = 0i64;
            let mut fail = 0i64;
            let mut error = 0i64;
            let mut test_count = 0i64;
            m.for_each(|k, v| {
                if let (Value::Keyword(kw), Value::Long(count)) = (k, v) {
                    match kw.get().name.as_ref() {
                        "pass" => pass = *count,
                        "fail" => fail = *count,
                        "error" => error = *count,
                        "test" => test_count = *count,
                        _ => {}
                    }
                }
            });
            total_pass += pass;
            total_fail += fail;
            total_error += error;
            total_test_count += test_count;
        }

        // Unload the test namespace so the GC can reclaim its vars,
        // closures, and form trees.  GcPtr::Drop is a no-op, so we must
        // remove the namespace from GlobalEnv before collecting.
        // The pressure-based GC (triggered by gc_safepoint during the next
        // namespace's test execution) will naturally collect the freed objects:
        // they are no longer reachable from GlobalEnv::namespaces and will be
        // swept in the next collection cycle.
        {
            let ns_key: std::sync::Arc<str> = std::sync::Arc::from(*ns_str);
            env.globals.namespaces.write().unwrap().remove(&*ns_key);
            env.globals.loaded.lock().unwrap().remove(&*ns_key);
        }
    }

    // Flush output before exiting
    std::io::Write::flush(&mut std::io::stdout()).unwrap();
    println!("Ran {} tests containing {} assertions.", total_test_count, total_pass + total_fail + total_error);
    std::io::Write::flush(&mut std::io::stdout()).unwrap();
    println!("{} passed, {} failed, {} errors.", total_pass, total_fail, total_error);
    std::io::Write::flush(&mut std::io::stdout()).unwrap();

    // Pop the eval context.
    cljrs_env::callback::pop_eval_context();

    // If CLJRS_GC_STATS is set, dump GC stats to its target (stdout/file).
    cljrs_gc::dump_stats_from_env();

    if total_fail > 0 || total_error > 0 {
        std::process::exit(1);
    }
}

fn main() {
    // Run on a large-stack thread to avoid stack overflows in deeply recursive
    // Clojure code (macros, lazy sequences, recursive interpreting).
    const STACK_SIZE: usize = 64 * 1024 * 1024; // 64 MiB
    let thread = std::thread::Builder::new()
        .stack_size(STACK_SIZE)
        .spawn(run)
        .expect("failed to spawn main thread");
    if let Err(e) = thread.join() {
        std::panic::resume_unwind(e);
    }
}"#;

} // verus!
