use cljrs_compiler::anf::{lower_fn_body, resolve_known_fn, AstLowering, LowerError};
use cljrs_compiler::form::{Form, FormKind};
use cljrs_compiler::ir::{Const, Inst, IrFunction, KnownFn, Span, Terminator, VarId};

/// A place in a test.
fn span() -> Span {
    Span { file: "<test>".to_string(), start: 0, end: 0, line: 1, col: 1 }
}

fn form(kind: FormKind) -> Form {
    Form { kind, span: span() }
}

/// Splits a text into brackets and words.
fn words(src: &str) -> Vec<String> {
    let mut out: Vec<String> = Vec::new();
    let mut word = String::new();
    for c in src.chars() {
        if c == ' ' || "()[]{}".contains(c) {
            if !word.is_empty() {
                out.push(std::mem::take(&mut word));
            }
            if c != ' ' {
                out.push(c.to_string());
            }
        } else {
            word.push(c);
        }
    }
    if !word.is_empty() {
        out.push(word);
    }
    out
}

fn read_until(words: &[String], at: &mut usize, end: &str) -> Vec<Form> {
    let mut out = Vec::new();
    while words[*at] != end {
        out.push(read(words, at));
    }
    *at += 1;
    out
}

fn read(words: &[String], at: &mut usize) -> Form {
    let word = words[*at].clone();
    *at += 1;
    if word == "(" {
        return form(FormKind::List(read_until(words, at, ")")));
    }
    if word == "[" {
        return form(FormKind::Vector(read_until(words, at, "]")));
    }
    if word == "{" {
        return form(FormKind::Dict(read_until(words, at, "}")));
    }
    if let Ok(n) = word.parse::<i64>() {
        return form(FormKind::Int(n));
    }
    if word.contains('.') {
        if let Ok(x) = word.parse::<f64>() {
            return form(FormKind::Float(x.to_bits()));
        }
    }
    if word == "nil" {
        return form(FormKind::Nil);
    }
    if word == "true" || word == "false" {
        return form(FormKind::Bool(word == "true"));
    }
    match word.strip_prefix(':') {
        Some(name) => form(FormKind::Keyword(name.to_string())),
        None => form(FormKind::Symbol(word)),
    }
}

/// Reads one form.
fn parse(src: &str) -> Form {
    read(&words(src), &mut 0)
}

/// Lowers a `(fn [params] body...)`.
fn try_lower(src: &str) -> Result<IrFunction, LowerError> {
    match parse(src).kind {
        FormKind::List(mut forms) => {
            assert!(forms.len() >= 3, "expected (fn [params] body...)");
            let body = forms.split_off(2);
            let params: Vec<String> = match &forms[1].kind {
                FormKind::Vector(v) => v
                    .iter()
                    .map(|f| match &f.kind {
                        FormKind::Symbol(s) => s.clone(),
                        _ => panic!("expected symbol in params"),
                    })
                    .collect(),
                _ => panic!("expected vector for params"),
            };
            lower_fn_body(None, "user", &params, &body)
        }
        _ => panic!("expected list form"),
    }
}

fn lower_test_fn(src: &str) -> IrFunction {
    try_lower(src).expect("lower error")
}

#[test]
fn test_lower_const() {
    let ir = lower_test_fn("(fn [] 42)");
    assert_eq!(ir.blocks.len(), 1);
    assert_eq!(ir.params.len(), 0);
    // Should have: Const(v0, Long(42)), Return(v0)
    assert_eq!(ir.blocks[0].insts.len(), 1);
    match &ir.blocks[0].insts[0] {
        Inst::Const(_, Const::Long(42)) => {}
        other => panic!("expected Const(Long(42)), got {other:?}"),
    }
    match &ir.blocks[0].terminator {
        Terminator::Return(v) => assert_eq!(*v, VarId(0)),
        other => panic!("expected Return, got {other:?}"),
    }
}

#[test]
fn test_lower_param_ref() {
    let ir = lower_test_fn("(fn [x] x)");
    assert_eq!(ir.params.len(), 1);
    assert_eq!(ir.params[0].0.as_str(), "x");
    // Body should just return the param var.
    match &ir.blocks[0].terminator {
        Terminator::Return(v) => assert_eq!(*v, ir.params[0].1),
        other => panic!("expected Return of param, got {other:?}"),
    }
}

#[test]
fn test_lower_if() {
    let ir = lower_test_fn("(fn [x] (if x 1 2))");
    // Should produce: entry(branch), then, else, join(phi + return)
    assert!(ir.blocks.len() >= 4, "expected at least 4 blocks for if");
    // Entry block should end with a Branch.
    match &ir.blocks[0].terminator {
        Terminator::Branch { .. } => {}
        other => panic!("expected Branch terminator, got {other:?}"),
    }
}

#[test]
fn test_lower_let() {
    let ir = lower_test_fn("(fn [x] (let [y (+ x 1)] y))");
    // Should bind y to result of (+ x 1), then return y.
    let insts = &ir.blocks[0].insts;
    // Find the CallKnown for Add.
    let has_add = insts
        .iter()
        .any(|i| matches!(i, Inst::CallKnown(_, KnownFn::Add, _)));
    assert!(has_add, "expected CallKnown(Add) in instructions");
}

#[test]
fn test_lower_vector_literal() {
    let ir = lower_test_fn("(fn [] [1 2 3])");
    let insts = &ir.blocks[0].insts;
    let has_alloc = insts.iter().any(|i| matches!(i, Inst::AllocVector(..)));
    assert!(has_alloc, "expected AllocVector in instructions");
}

#[test]
fn test_lower_known_call() {
    let ir = lower_test_fn("(fn [m] (assoc m :a 1))");
    let insts = &ir.blocks[0].insts;
    let has_assoc = insts
        .iter()
        .any(|i| matches!(i, Inst::CallKnown(_, KnownFn::Assoc, _)));
    assert!(has_assoc, "expected CallKnown(Assoc)");
}

#[test]
fn test_lower_unknown_call() {
    let ir = lower_test_fn("(fn [f x] (f x))");
    let insts = &ir.blocks[0].insts;
    let has_call = insts.iter().any(|i| matches!(i, Inst::Call(..)));
    assert!(has_call, "expected Call (unknown) in instructions");
}

#[test]
fn test_lower_and() {
    let ir = lower_test_fn("(fn [a b] (and a b))");
    // and produces branching.
    assert!(ir.blocks.len() >= 3, "expected multiple blocks for and");
}

#[test]
fn test_lower_nested_let() {
    let ir = lower_test_fn("(fn [x] (let [a 1 b 2] (+ a b)))");
    // Should produce constants and an Add call.
    let all_insts: Vec<_> = ir.blocks.iter().flat_map(|b| b.insts.iter()).collect();
    let has_add = all_insts
        .iter()
        .any(|i| matches!(i, Inst::CallKnown(_, KnownFn::Add, _)));
    assert!(has_add, "expected CallKnown(Add)");
}

#[test]
fn test_lower_assoc_chain() {
    // Pattern that escape analysis should optimize: intermediate maps don't escape.
    let ir = lower_test_fn(
        "(fn [m] (let [a (assoc m :x 1) b (assoc a :y 2) c (assoc b :z 3)] c))",
    );
    // Should see 3 CallKnown(Assoc) instructions.
    let all_insts: Vec<_> = ir.blocks.iter().flat_map(|b| b.insts.iter()).collect();
    let assoc_count = all_insts
        .iter()
        .filter(|i| matches!(i, Inst::CallKnown(_, KnownFn::Assoc, _)))
        .count();
    assert_eq!(assoc_count, 3, "expected 3 assoc calls in chain");
}

#[test]
fn test_lower_map_literal() {
    let ir = lower_test_fn("(fn [] {:a 1 :b 2})");
    let insts = &ir.blocks[0].insts;
    let has_alloc_map = insts.iter().any(|i| matches!(i, Inst::AllocMap(..)));
    assert!(has_alloc_map, "expected AllocMap in instructions");
}

#[test]
fn test_lower_loop_recur() {
    let ir = lower_test_fn("(fn [n] (loop [i 0 acc 0] (if (= i n) acc (recur (+ i 1) (+ acc i)))))");
    // Should have multiple blocks for loop header, body, branches.
    assert!(ir.blocks.len() >= 4, "expected at least 4 blocks for loop");
    // Should have phi nodes in the header block (block after entry).
    let has_phi = ir.blocks.iter().any(|b| !b.phis.is_empty());
    assert!(has_phi, "expected phi nodes in loop header");
}

#[test]
fn an_if_is_a_branch_into_a_join() {
    let ir = lower_test_fn("(fn [x] (if x (+ x 1) 0))");
    assert!(matches!(ir.blocks[0].terminator, Terminator::Branch { .. }));
    assert!(ir.blocks.iter().flat_map(|b| b.insts.iter()).any(|i| matches!(i, Inst::CallKnown(_, KnownFn::Add, _))));
    assert!(ir.blocks.iter().any(|b| b.phis.len() == 1));
}

#[test]
fn the_names_of_core_functions_resolve() {
    assert_eq!(resolve_known_fn("+"), Some(KnownFn::Add));
    assert_eq!(resolve_known_fn("assoc"), Some(KnownFn::Assoc));
    assert_eq!(resolve_known_fn("no-such-fn"), None);
}

#[test]
fn a_lowering_starts_empty() {
    let none: Vec<String> = Vec::new();
    let ir = AstLowering::new(Some("f".to_string()), "user").lower_function(&none, &vec![form(FormKind::Nil)]).unwrap();
    assert_eq!(ir.name.as_deref(), Some("f"));
    assert_eq!(ir.blocks.len(), 1);
    assert!(matches!(ir.blocks[0].insts[0], Inst::Const(VarId(0), Const::Nil)));
}

#[test]
fn a_recur_outside_a_loop_is_malformed() {
    match try_lower("(fn [x] (recur x))") {
        Err(LowerError::Malformed(t)) => assert_eq!(t, "recur outside of loop"),
        other => panic!("expected an error, got {other:?}"),
    }
}

#[test]
fn a_let_with_half_a_binding_is_malformed() {
    assert!(matches!(try_lower("(fn [x] (let [y] x))"), Err(LowerError::Malformed(_))));
}

#[test]
fn a_regex_has_no_lowering() {
    let body = vec![form(FormKind::Regex("a+".to_string()))];
    let none: Vec<String> = Vec::new();
    assert!(matches!(lower_fn_body(None, "user", &none, &body), Err(LowerError::Unsupported(_))));
}
