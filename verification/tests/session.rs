use cljrs_compiler::extensions::{CompileSession, Extension, ExtensionSet, OpacityPolicy};
use cljrs_compiler::ir::IrFunction;
use cljrs_compiler::jit::{superseded, CompileRequest, Jit};
use std::sync::Arc;

fn function() -> Arc<IrFunction> {
    Arc::new(IrFunction::new(None, None))
}

#[test]
fn harness_init_code_is_one_call_per_extension_in_order() {
    let set = ExtensionSet::new()
        .with(Extension::new("cljrs-async", "cljrs_async::init"))
        .with(Extension::new("cljrs-io", "cljrs_io::init"));
    assert_eq!(set.harness_init_code(), "    cljrs_async::init(&globals);\n    cljrs_io::init(&globals);\n");
    assert_eq!(set.crate_names(), vec!["cljrs-async", "cljrs-io"]);
}

#[test]
fn empty_set_emits_nothing() {
    let set = ExtensionSet::new();
    assert!(set.is_empty());
    assert_eq!(set.harness_init_code(), "");
    assert!(set.crate_names().is_empty());
}

#[test]
fn a_session_keeps_what_it_is_given() {
    let mut set = ExtensionSet::new();
    set.push(Extension::new("a", "a::init"));
    assert_eq!(set.len(), 1);
    assert_eq!(set.iter()[0].init_path, "a::init");
    let mut session = CompileSession::new(vec!["src".to_string()], set)
        .verify_commit_signatures(true)
        .opacity(OpacityPolicy { level: 2 });
    session.add_src_dir("lib");
    assert_eq!(session.src_dirs(), &["src".to_string(), "lib".to_string()]);
    assert_eq!(session.extensions().len(), 1);
    assert!(session.verifies_commit_signatures());
    assert!(session.opacity_policy() == OpacityPolicy { level: 2 });
    assert!(session.rust_config_ref().is_none());
}

#[test]
fn saturated_queue_rejects_function_and_osr_requests() {
    let mut jit = Jit::new(1);
    let ir = function();
    assert!(jit.enqueue_function(0xF400_0001, 1, ir.clone()), "first request fills the queue");
    assert!(!jit.enqueue_function(0xF400_0001, 2, ir.clone()));
    assert!(!jit.enqueue_osr(0xF400_0001, 3, 0, ir));
}

#[test]
fn requests_are_taken_in_order_and_make_room() {
    let mut jit = Jit::new(2);
    assert!(jit.enqueue_function(7, 1, function()));
    assert!(jit.enqueue_osr(7, 2, 4, function()));
    assert!(matches!(jit.next_request(), Some(CompileRequest::Function { tiers: 7, arity_id: 1, .. })));
    assert!(jit.enqueue_function(7, 3, function()));
    assert!(matches!(jit.next_request(), Some(CompileRequest::Osr { arity_id: 2, header: 4, .. })));
    assert!(matches!(jit.next_request(), Some(CompileRequest::Function { arity_id: 3, .. })));
    assert!(jit.next_request().is_none());
}

#[test]
fn only_what_the_new_definition_lacks_is_superseded() {
    assert_eq!(superseded(&vec![1, 2, 3], &vec![2]), vec![1, 3]);
    assert_eq!(superseded(&vec![1, 2], &vec![1, 2]), Vec::<u64>::new());
    assert_eq!(superseded(&vec![], &vec![1]), Vec::<u64>::new());
}
