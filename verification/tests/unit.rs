use cljrs_compiler::anf::lower_fn_body;
use cljrs_compiler::codegen::CodegenError;
use cljrs_compiler::compiler::Compiler;
use cljrs_compiler::form::{Form, FormKind};
use cljrs_compiler::ir::{ClosureTemplate, Inst, IrFunction, KnownFn, Span, Terminator, VarId};
use cljrs_compiler::passes::{collect_defn_arities, count_alloc_stats, find_matching_arity, optimize_direct_calls, rewrite_calls_to_direct, ArityInfo, Defn};
use cljrs_compiler::program::{compile_file, compile_with};
use cljrs_compiler::unit::{compile_program, compile_unit, dep_codegen_ok, inner_symbol, is_function_ok, is_unit_ok, unit_codegen_ok};

/// A place in a test.
fn span() -> Span {
    Span { file: "<test>".to_string(), start: 0, end: 0, line: 1, col: 1 }
}

fn form(kind: FormKind) -> Form {
    Form { kind, span: span() }
}

/// Splits a text into brackets and words.
fn words(src: &str) -> Vec<String> {
    let mut out: Vec<String> = Vec::new();
    let mut word = String::new();
    for c in src.chars() {
        if c == ' ' || "()[]{}".contains(c) {
            if !word.is_empty() {
                out.push(std::mem::take(&mut word));
            }
            if c != ' ' {
                out.push(c.to_string());
            }
        } else {
            word.push(c);
        }
    }
    if !word.is_empty() {
        out.push(word);
    }
    out
}

fn read_until(words: &[String], at: &mut usize, end: &str) -> Vec<Form> {
    let mut out = Vec::new();
    while words[*at] != end {
        out.push(read(words, at));
    }
    *at += 1;
    out
}

fn read(words: &[String], at: &mut usize) -> Form {
    let word = words[*at].clone();
    *at += 1;
    if word == "(" {
        return form(FormKind::List(read_until(words, at, ")")));
    }
    if word == "[" {
        return form(FormKind::Vector(read_until(words, at, "]")));
    }
    if word == "{" {
        return form(FormKind::Dict(read_until(words, at, "}")));
    }
    if let Ok(n) = word.parse::<i64>() {
        return form(FormKind::Int(n));
    }
    if word.contains('.') {
        if let Ok(x) = word.parse::<f64>() {
            return form(FormKind::Float(x.to_bits()));
        }
    }
    if word == "nil" {
        return form(FormKind::Nil);
    }
    if word == "true" || word == "false" {
        return form(FormKind::Bool(word == "true"));
    }
    match word.strip_prefix(':') {
        Some(name) => form(FormKind::Keyword(name.to_string())),
        None => form(FormKind::Symbol(word)),
    }
}

/// Reads one form.
fn parse(src: &str) -> Form {
    read(&words(src), &mut 0)
}

fn parse_body(src: &str) -> Vec<Form> {
    vec![parse(src)]
}

fn names(names: &[&str]) -> Vec<String> {
    names.iter().map(|n| n.to_string()).collect()
}

fn lower(name: &str, params: &Vec<String>, body: &Vec<Form>) -> IrFunction {
    lower_fn_body(Some(name), "user", params, body).unwrap()
}

/// A function with one block of these instructions, which returns its first value.
fn straight(name: &str, insts: Vec<Inst>) -> IrFunction {
    let mut ir = lower(name, &names(&[]), &parse_body("1"));
    ir.blocks[0].insts = insts;
    ir.blocks[0].terminator = Terminator::Return(VarId(0));
    ir
}

/// `(def f (fn [x] ...))` with its arity compiled as `symbol`, and a call of it.
fn program() -> IrFunction {
    let template = ClosureTemplate {
        name: Some("f".to_string()),
        arity_fn_names: vec!["f__1".to_string()],
        param_counts: vec![1],
        is_variadic: vec![false],
        capture_names: Vec::new(),
        body_forms: Vec::new(),
    };
    let mut main = straight(
        "main",
        vec![
            Inst::AllocClosure(VarId(0), template, Vec::new()),
            Inst::DefVar(VarId(1), "user".to_string(), "f".to_string(), VarId(0)),
            Inst::LoadGlobal(VarId(2), "user".to_string(), "f".to_string()),
            Inst::Call(VarId(3), VarId(2), vec![VarId(1)]),
        ],
    );
    main.next_var = 4;
    main.subfunctions.push(lower("f__1", &names(&["x"]), &parse_body("(+ x 1)")));
    main
}

#[test]
fn a_program_is_compiled_with_its_inner_functions_and_its_namespaces() {
    let main = program();
    let dep = lower("__cljrs_ns_init_0", &names(&[]), &parse_body("(def y 2)"));
    assert!(is_unit_ok(&main));
    let mut c = Compiler::new().unwrap();
    compile_program(&mut c, &main, &vec![("__cljrs_ns_init_0".to_string(), dep)]).unwrap();
    assert!(c.last_code_size() > 0);
    let object = c.finish().unwrap();
    let has = |name: &str| object.windows(name.len()).any(|w| w == name.as_bytes());
    assert!(has("f__1"));
    assert!(has("__cljrs_ns_init_0"));
    assert!(has("rt_def_var"));
}

#[test]
fn a_unit_is_compiled_under_its_symbol() {
    let mut c = Compiler::new().unwrap();
    compile_unit(&program(), "my_symbol", &mut c).unwrap();
    let object = c.finish().unwrap();
    assert!(object.windows(9).any(|w| w == b"my_symbol"));
}

#[test]
fn what_cannot_be_compiled_is_refused() {
    let asleep = straight("f", vec![Inst::Await { dst: VarId(0), value: VarId(0) }]);
    assert!(!dep_codegen_ok(&asleep, "f"));
    let mut c = Compiler::new().unwrap();
    let id = c.declare_function("f", 0).unwrap();
    match c.compile_function(&asleep, id) {
        Err(CodegenError::UnsupportedInst(t)) => assert!(t.starts_with("async instructions")),
        other => panic!("expected a refusal, got {other:?}"),
    }
    let lost = straight("g", vec![Inst::CallDirect(VarId(0), "nowhere".to_string(), Vec::new())]);
    let mut c = Compiler::new().unwrap();
    let id = c.declare_function("g", 0).unwrap();
    match c.compile_function(&lost, id) {
        Err(CodegenError::Codegen(t)) => assert_eq!(t, "CallDirect: unknown function nowhere"),
        other => panic!("expected a refusal, got {other:?}"),
    }
    assert!(dep_codegen_ok(&lower("h", &names(&[]), &parse_body("1")), "h"));
}

/// The module refuses the unit, and nothing else does.
fn is_refused_by_module(unit: &IrFunction, symbol: &str, c: &mut Compiler) -> bool {
    assert!(is_unit_ok(unit));
    matches!(compile_unit(unit, symbol, c), Err(CodegenError::Module(_)))
}

#[test]
fn two_functions_of_one_name_are_refused_by_the_module() {
    let mut c = Compiler::new().unwrap();
    let mut twice = program();
    twice.subfunctions.push(lower("f__1", &names(&["y"]), &parse_body("y")));
    assert!(is_refused_by_module(&twice, "unit", &mut c));
    let mut c = Compiler::new().unwrap();
    let mut other = program();
    other.subfunctions.push(lower("f__1", &names(&["y", "z"]), &parse_body("y")));
    assert!(is_refused_by_module(&other, "unit", &mut c));
    let mut c = Compiler::new().unwrap();
    assert!(is_refused_by_module(&program(), "f__1", &mut c));
    let mut c = Compiler::new().unwrap();
    assert!(is_refused_by_module(&program(), "rt_add", &mut c));
    let mut c = Compiler::new().unwrap();
    compile_unit(&program(), "unit", &mut c).unwrap();
    assert!(is_refused_by_module(&lower("g", &names(&[]), &parse_body("1")), "unit", &mut c));
    let mut c = Compiler::new().unwrap();
    assert!(compile_unit(&program(), "unit", &mut c).is_ok());
}

#[test]
fn nothing_is_compiled_without_a_compiler() {
    let unit = lower("h", &names(&[]), &parse_body("1"));
    let missing = || Err(CodegenError::Codegen("no host".to_string()));
    assert!(!unit_codegen_ok(missing(), &unit, "h"));
    assert!(unit_codegen_ok(Compiler::new(), &unit, "h"));
    match compile_with(missing(), &unit, &Vec::new()) {
        Err(CodegenError::Codegen(t)) => assert_eq!(t, "no host"),
        _ => panic!("compiled without a compiler"),
    }
    let c = compile_with(Compiler::new(), &unit, &Vec::new()).unwrap();
    assert!(c.finish().unwrap().windows(12).any(|w| w == b"__cljrs_main"));
}

#[test]
fn a_jump_into_nowhere_is_not_in_order() {
    let mut ir = lower("f", &names(&[]), &parse_body("1"));
    assert!(is_function_ok(&ir));
    ir.blocks[0].terminator = Terminator::Jump(cljrs_compiler::ir::BlockId(9));
    assert!(!is_function_ok(&ir));
    assert!(!is_unit_ok(&ir));
}

#[test]
fn every_lowered_function_is_in_order() {
    for src in ["(loop [i 0] (if (< i 3) (recur (+ i 1)) i))", "(and 1 2 3)", "(let [x (or nil 2)] (throw x))", "(if 1 (do 2) [3 {4 5}])"] {
        let ir = lower("f", &names(&["a"]), &parse_body(src));
        assert!(is_function_ok(&ir));
        let mut defined: Vec<u32> = ir.params.iter().map(|p| p.1.0).collect();
        for b in &ir.blocks {
            for i in b.phis.iter().chain(b.insts.iter()) {
                if let Some(d) = i.dst() {
                    defined.push(d.0);
                }
            }
        }
        defined.sort();
        assert_eq!(defined, (0..ir.next_var).collect::<Vec<u32>>());
    }
}

#[test]
fn an_inner_function_has_a_symbol() {
    assert_eq!(inner_symbol(&lower("f__1", &names(&[]), &parse_body("1"))), "f__1");
}

#[test]
fn calls_of_known_functions_become_direct() {
    let mut main = program();
    let defns = collect_defn_arities(&main);
    assert_eq!(defns.len(), 1);
    assert_eq!(defns[0].arities[0].fn_name, "f__1");
    let before = count_alloc_stats(&main);
    assert_eq!(rewrite_calls_to_direct(&mut main, &defns), 1);
    assert!(main.blocks[0].insts.iter().any(|i| matches!(i, Inst::CallDirect(_, name, _) if name == "f__1")));
    let after = count_alloc_stats(&main);
    assert_eq!((before.heap, before.closures, before.functions), (after.heap, after.closures, after.functions));
    let mut again = program();
    optimize_direct_calls(&mut again);
    assert!(again.blocks[0].insts.iter().any(|i| matches!(i, Inst::CallDirect(_, _, _))));
    let mut c = Compiler::new().unwrap();
    compile_unit(&again, "main", &mut c).unwrap();
}

#[test]
fn a_second_pass_rewrites_nothing() {
    let mut main = program();
    let defns = collect_defn_arities(&main);
    assert_eq!(rewrite_calls_to_direct(&mut main, &defns), 1);
    let once = format!("{main:?}");
    assert_eq!(rewrite_calls_to_direct(&mut main, &defns), 0);
    assert_eq!(format!("{main:?}"), once);
    let mut again = program();
    optimize_direct_calls(&mut again);
    let optimized = format!("{again:?}");
    optimize_direct_calls(&mut again);
    assert_eq!(format!("{again:?}"), optimized);
}

#[test]
fn a_call_with_other_arguments_stays() {
    let mut main = program();
    let other = vec![Defn { ns: "user".to_string(), name: "f".to_string(), arities: vec![ArityInfo { fn_name: "f__2".to_string(), param_count: 2, is_variadic: false }] }];
    assert_eq!(rewrite_calls_to_direct(&mut main, &other), 0);
    let open = ArityInfo { fn_name: "v".to_string(), param_count: 0, is_variadic: true };
    assert!(find_matching_arity(&vec![open], 3).is_none());
}

#[test]
fn a_known_call_is_no_call_of_a_value() {
    let ir = lower("f", &names(&["a"]), &parse_body("(+ a 1)"));
    assert!(ir.blocks[0].insts.iter().any(|i| matches!(i, Inst::CallKnown(_, KnownFn::Add, _))));
}

#[test]
fn a_function_defined_at_any_depth_is_called_directly() {
    // The definition stands two functions inside the one that calls it.
    let inner = program();
    let mut middle = lower("middle", &names(&[]), &parse_body("1"));
    middle.subfunctions.push(inner);
    let mut outer = straight(
        "outer",
        vec![
            Inst::LoadGlobal(VarId(0), "user".to_string(), "f".to_string()),
            Inst::Call(VarId(1), VarId(0), vec![VarId(0)]),
        ],
    );
    outer.subfunctions.push(middle);
    optimize_direct_calls(&mut outer);
    assert!(matches!(&outer.blocks[0].insts[1], Inst::CallDirect(_, name, _) if name == "f__1"));
}

#[test]
fn a_file_is_compiled_with_its_calls_made_direct() {
    let mut main = program();
    assert!(is_unit_ok(&main));
    let c = compile_file(&mut main, &Vec::new()).unwrap();
    assert!(main.blocks[0].insts.iter().any(|i| matches!(i, Inst::CallDirect(_, _, _))));
    assert!(is_unit_ok(&main));
    let object = c.finish().unwrap();
    assert!(object.windows(12).any(|w| w == b"__cljrs_main"));
    let mut asleep = straight("f", vec![Inst::Await { dst: VarId(0), value: VarId(0) }]);
    assert!(matches!(compile_file(&mut asleep, &Vec::new()), Err(CodegenError::UnsupportedInst(_))));
}

#[test]
fn whatever_is_lowered_is_compiled() {
    let sources = [
        "(loop [i 0 acc 1.5] (if (< i 10) (recur (+ i 1) (* acc 2.0)) acc))",
        "(let [x (and a 1) y (or nil x)] [x y {:k (f x)} (quote (a (b 1)))])",
        "(do (def z 1) (defn g [x] x) (set! z 2) (g z))",
        "(if (= a 1) (throw a) (fn [y] (+ a y)))",
        "(loop [i 0] (loop [j 0] (if (< j i) (recur (+ j 1)) (if (< i 3) (recur 0) i))))",
    ];
    for src in sources {
        let ir = lower("f", &names(&["a"]), &parse_body(src));
        let mut c = Compiler::new().unwrap();
        let id = c.declare_function("f", 1).unwrap();
        c.compile_function(&ir, id).unwrap();
        assert!(c.last_code_size() > 0);
    }
}

#[test]
fn a_first_block_with_a_phi_is_refused() {
    let mut ir = lower("f", &names(&[]), &parse_body("1"));
    let own = ir.blocks[0].id;
    ir.blocks[0].phis.push(Inst::Phi(VarId(7), vec![(own, VarId(0))]));
    let mut c = Compiler::new().unwrap();
    let id = c.declare_function("f", 0).unwrap();
    match c.compile_function(&ir, id) {
        Err(CodegenError::Codegen(t)) => assert_eq!(t, "a plan that cannot be carried out"),
        other => panic!("expected a refusal, got {other:?}"),
    }
}
