use cljrs_compiler::aot::{accepted, AotError};
use cljrs_compiler::escape::{check, check_function, BlacklistViolation};
use cljrs_compiler::ir::{Block, BlockId, ClosureTemplate, Inst, IrFunction, KnownFn, Terminator, VarId};

fn make_func(name: &str, blocks: Vec<Block>) -> IrFunction {
    let mut f = IrFunction::new(Some(name.to_string()), None);
    f.blocks = blocks;
    f.next_var = 2;
    f.next_block = 1;
    f
}

fn simple_block(id: u32, insts: Vec<Inst>, term: Terminator) -> Block {
    Block { id: BlockId(id), phis: vec![], insts, terminator: term }
}

#[test]
fn interior_pointer_return_flagged() {
    // %0 = alloc-map []; return %0  → error
    let v0 = VarId(0);
    let func = make_func(
        "bad",
        vec![simple_block(
            0,
            vec![Inst::AllocMap(v0, vec![])],
            Terminator::Return(v0),
        )],
    );
    let violations = check_function(&func);
    assert!(
        violations.iter().any(|v| matches!(v, BlacklistViolation::InteriorPointerReturn { .. })),
        "expected InteriorPointerReturn, got {violations:?}"
    );
}

#[test]
fn call_return_not_flagged() {
    // %0 = load-global "m"; %1 = call-known assoc [%0]; return %1  → OK
    let v0 = VarId(0);
    let v1 = VarId(1);
    let func = make_func(
        "ok",
        vec![simple_block(
            0,
            vec![
                Inst::LoadGlobal(v0, "user".to_string(), "m".to_string()),
                Inst::CallKnown(v1, KnownFn::Assoc, vec![v0]),
            ],
            Terminator::Return(v1),
        )],
    );
    let violations = check_function(&func);
    assert!(
        !violations
            .iter()
            .any(|v| matches!(v, BlacklistViolation::InteriorPointerReturn { .. })),
        "expected no InteriorPointerReturn, got {violations:?}"
    );
}

#[test]
fn region_to_static_store_flagged() {
    // %0 = alloc-map []; %1 = def-var ns/x %0  → error
    let v0 = VarId(0);
    let v1 = VarId(1);
    let func = make_func(
        "bad-def",
        vec![simple_block(
            0,
            vec![
                Inst::AllocMap(v0, vec![]),
                Inst::DefVar(v1, "user".to_string(), "x".to_string(), v0),
            ],
            Terminator::Return(v1),
        )],
    );
    let violations = check_function(&func);
    assert!(
        violations.iter().any(|v| matches!(v, BlacklistViolation::RegionToStaticStore { .. })),
        "expected RegionToStaticStore, got {violations:?}"
    );
}

#[test]
fn lazy_seq_direct_return_not_flagged() {
    // %0 = call-known :map [...]; return %0  (used exactly once) → OK
    let v0 = VarId(0);
    let func = make_func(
        "ok-lazy",
        vec![simple_block(
            0,
            vec![Inst::CallKnown(v0, KnownFn::MapSeq, vec![])],
            Terminator::Return(v0),
        )],
    );
    let violations = check_function(&func);
    assert!(
        !violations
            .iter()
            .any(|v| matches!(v, BlacklistViolation::LazySeqEscape { .. })),
        "direct lazy return should not be flagged, got {violations:?}"
    );
}

#[test]
fn lazy_seq_intermediate_flagged() {
    // %0 = call-known :map []; %1 = call-known :println [%0]; return %0
    // → %0 used twice → LazySeqEscape
    let v0 = VarId(0);
    let v1 = VarId(1);
    let func = make_func(
        "bad-lazy",
        vec![simple_block(
            0,
            vec![
                Inst::CallKnown(v0, KnownFn::MapSeq, vec![]),
                Inst::CallKnown(v1, KnownFn::Println, vec![v0]),
            ],
            Terminator::Return(v0),
        )],
    );
    let violations = check_function(&func);
    assert!(
        violations.iter().any(|v| matches!(v, BlacklistViolation::LazySeqEscape { .. })),
        "expected LazySeqEscape, got {violations:?}"
    );
}

#[test]
fn escaping_closure_flagged() {
    // %0 = alloc-closure []; %1 = def-var ns/f %0  → EscapingClosure
    let v0 = VarId(0);
    let v1 = VarId(1);
    let tmpl = ClosureTemplate {
        name: None,
        arity_fn_names: vec![],
        param_counts: vec![],
        is_variadic: vec![],
        capture_names: vec![],
        body_forms: vec![],
    };
    let func = make_func(
        "bad-closure",
        vec![simple_block(
            0,
            vec![
                Inst::AllocClosure(v0, tmpl, vec![]),
                Inst::DefVar(v1, "user".to_string(), "f".to_string(), v0),
            ],
            Terminator::Return(v1),
        )],
    );
    let violations = check_function(&func);
    assert!(
        violations.iter().any(|v| matches!(v, BlacklistViolation::EscapingClosure { .. })),
        "expected EscapingClosure, got {violations:?}"
    );
}

#[test]
fn inner_functions_are_checked_too() {
    let v0 = VarId(0);
    let inner = make_func("inner", vec![simple_block(0, vec![Inst::AllocMap(v0, vec![])], Terminator::Return(v0))]);
    let mut outer = make_func("outer", vec![simple_block(0, vec![], Terminator::Unreachable)]);
    outer.subfunctions.push(inner);
    assert_eq!(check_function(&outer).len(), 0);
    let found = check(&outer);
    assert_eq!(found.len(), 1);
    assert!(found[0].message().contains("inner"));
}

#[test]
fn every_use_of_a_lazy_sequence_counts() {
    // The sequence is returned and used once more, each time in another way.
    let v0 = VarId(0);
    let v1 = VarId(1);
    let uses = vec![
        Inst::SetBang(v0, v1),
        Inst::CallWithRegion(v1, "f".to_string(), vec![v0], v1),
        Inst::AllocMap(v1, vec![(v0, v1)]),
        Inst::Await { dst: v1, value: v0 },
    ];
    for use_inst in uses {
        let func = make_func(
            "bad-lazy",
            vec![simple_block(0, vec![Inst::CallKnown(v0, KnownFn::MapSeq, vec![]), use_inst], Terminator::Return(v0))],
        );
        let found = check_function(&func);
        assert!(found.iter().any(|v| matches!(v, BlacklistViolation::LazySeqEscape { .. })), "got {found:?}");
    }
}

#[test]
fn a_function_is_accepted_unless_something_would_dangle() {
    let v0 = VarId(0);
    let good = make_func("good", vec![simple_block(0, vec![Inst::LoadGlobal(v0, "user".to_string(), "m".to_string())], Terminator::Return(v0))]);
    assert_eq!(accepted(good).unwrap().blocks.len(), 1);
    let bad = make_func("bad", vec![simple_block(0, vec![Inst::AllocMap(v0, vec![])], Terminator::Return(v0))]);
    match accepted(bad) {
        Err(AotError::NoGcBlacklist(vs)) => assert_eq!(vs.len(), 1),
        other => panic!("expected violations, got {other:?}"),
    }
}

#[test]
fn a_phi_of_an_allocation_is_as_bad_as_the_allocation() {
    let v0 = VarId(0);
    let v1 = VarId(1);
    let through_a_phi = |first: Inst| {
        make_func(
            "phi",
            vec![
                simple_block(0, vec![first], Terminator::Jump(BlockId(1))),
                Block { id: BlockId(1), phis: vec![Inst::Phi(v1, vec![(BlockId(0), v0)])], insts: vec![], terminator: Terminator::Return(v1) },
            ],
        )
    };
    let found = check_function(&through_a_phi(Inst::AllocMap(v0, vec![])));
    assert_eq!(found.len(), 1);
    assert!(matches!(found[0], BlacklistViolation::InteriorPointerReturn { .. }));
    // Nothing is allocated, so nothing dangles.
    assert_eq!(check_function(&through_a_phi(Inst::LoadGlobal(v0, "user".to_string(), "m".to_string()))).len(), 0);
}
