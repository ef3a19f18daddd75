use cljrs_compiler::anf::lower_fn_body;
use cljrs_compiler::bridge::RtFn;
use cljrs_compiler::clif::Op;
use cljrs_compiler::codegen::{plan_function, CodegenError};
use cljrs_compiler::compiler::{new_compiler_from_module, Compiler};
use cljrs_compiler::form::{Form, FormKind};
use cljrs_compiler::ir::{IrFunction, Repr, Span, Terminator};
use cljrs_compiler::typeinfer::infer;

/// A place in a test.
fn span() -> Span {
    Span { file: "<test>".to_string(), start: 0, end: 0, line: 1, col: 1 }
}

fn form(kind: FormKind) -> Form {
    Form { kind, span: span() }
}

/// Splits a text into brackets and words.
fn words(src: &str) -> Vec<String> {
    let mut out: Vec<String> = Vec::new();
    let mut word = String::new();
    for c in src.chars() {
        if c == ' ' || "()[]{}".contains(c) {
            if !word.is_empty() {
                out.push(std::mem::take(&mut word));
            }
            if c != ' ' {
                out.push(c.to_string());
            }
        } else {
            word.push(c);
        }
    }
    if !word.is_empty() {
        out.push(word);
    }
    out
}

fn read_until(words: &[String], at: &mut usize, end: &str) -> Vec<Form> {
    let mut out = Vec::new();
    while words[*at] != end {
        out.push(read(words, at));
    }
    *at += 1;
    out
}

fn read(words: &[String], at: &mut usize) -> Form {
    let word = words[*at].clone();
    *at += 1;
    if word == "(" {
        return form(FormKind::List(read_until(words, at, ")")));
    }
    if word == "[" {
        return form(FormKind::Vector(read_until(words, at, "]")));
    }
    if word == "{" {
        return form(FormKind::Dict(read_until(words, at, "}")));
    }
    if let Ok(n) = word.parse::<i64>() {
        return form(FormKind::Int(n));
    }
    if word.contains('.') {
        if let Ok(x) = word.parse::<f64>() {
            return form(FormKind::Float(x.to_bits()));
        }
    }
    if word == "nil" {
        return form(FormKind::Nil);
    }
    if word == "true" || word == "false" {
        return form(FormKind::Bool(word == "true"));
    }
    match word.strip_prefix(':') {
        Some(name) => form(FormKind::Keyword(name.to_string())),
        None => form(FormKind::Symbol(word)),
    }
}

/// Reads one form.
fn parse(src: &str) -> Form {
    read(&words(src), &mut 0)
}

fn parse_body(src: &str) -> Vec<Form> {
    vec![parse(src)]
}

fn names(names: &[&str]) -> Vec<String> {
    names.iter().map(|n| n.to_string()).collect()
}

fn lower(name: &str, params: &Vec<String>, body: &Vec<Form>) -> IrFunction {
    lower_fn_body(Some(name), "user", params, body).unwrap()
}

#[test]
fn test_compile_constant_function() {
    // (defn f [] 42)
    let body = parse_body("42");
    let ir = lower("f", &names(&[]), &body);

    let mut compiler = Compiler::new().unwrap();
    let func_id = compiler.declare_function("f", 0).unwrap();
    compiler.compile_function(&ir, func_id).unwrap();
    let obj = compiler.finish().unwrap();
    assert!(!obj.is_empty(), "should produce non-empty object code");
}

#[test]
fn test_compile_add_function() {
    // (defn add [a b] (+ a b))
    let body = parse_body("(+ a b)");
    let params = names(&["a", "b"]);
    let ir = lower("add", &params, &body);

    let mut compiler = Compiler::new().unwrap();
    let func_id = compiler.declare_function("add", 2).unwrap();
    compiler.compile_function(&ir, func_id).unwrap();
    let obj = compiler.finish().unwrap();
    assert!(!obj.is_empty());
}

#[test]
fn test_compile_if_expression() {
    // (defn f [x] (if x 1 2))
    let body = parse_body("(if x 1 2)");
    let params = names(&["x"]);
    let ir = lower("f", &params, &body);

    let mut compiler = Compiler::new().unwrap();
    let func_id = compiler.declare_function("f", 1).unwrap();
    compiler.compile_function(&ir, func_id).unwrap();
    let obj = compiler.finish().unwrap();
    assert!(!obj.is_empty());
}

#[test]
fn test_compile_let_expression() {
    // (defn f [x] (let [y (+ x 1)] y))
    let body = parse_body("(let [y (+ x 1)] y)");
    let params = names(&["x"]);
    let ir = lower("f", &params, &body);

    let mut compiler = Compiler::new().unwrap();
    let func_id = compiler.declare_function("f", 1).unwrap();
    compiler.compile_function(&ir, func_id).unwrap();
    let obj = compiler.finish().unwrap();
    assert!(!obj.is_empty());
}

#[test]
fn test_compile_loop_recur() {
    // (defn sum [n] (loop [i 0 acc 0] (if (= i n) acc (recur (+ i 1) (+ acc i)))))
    let body = parse_body("(loop [i 0 acc 0] (if (= i n) acc (recur (+ i 1) (+ acc i))))");
    let params = names(&["n"]);
    let ir = lower("sum", &params, &body);

    let mut compiler = Compiler::new().unwrap();
    let func_id = compiler.declare_function("sum", 1).unwrap();
    compiler.compile_function(&ir, func_id).unwrap();
    let obj = compiler.finish().unwrap();
    assert!(!obj.is_empty());
}

/// The same loop compiled with the parameter specialized to
/// Long must pass the Cranelift verifier — entry guard, unboxed loop
/// phis, raw iadd/icmp arithmetic, and boxing on the return edge.
#[test]
fn test_compile_loop_recur_specialized_long() {
    let body = parse_body("(loop [i 0 acc 0] (if (< i n) (recur (+ i 1) (+ acc i)) acc))");
    let params = names(&["n"]);
    let ir = lower("sum", &params, &body);

    let mut compiler = Compiler::new().unwrap();
    let func_id = compiler.declare_function("sum", 1).unwrap();
    compiler
        .compile_function_with_specs(&ir, func_id, &[Repr::Long])
        .unwrap();
    let obj = compiler.finish().unwrap();
    assert!(!obj.is_empty());
}

/// Double specialization (f64 registers, fadd/fcmp).
#[test]
fn test_compile_specialized_double_arith() {
    let body = parse_body("(if (< x 10.0) (* x 2.0) (- x 1.0))");
    let params = names(&["x"]);
    let ir = lower("f", &params, &body);

    let mut compiler = Compiler::new().unwrap();
    let func_id = compiler.declare_function("f", 1).unwrap();
    compiler
        .compile_function_with_specs(&ir, func_id, &[Repr::Double])
        .unwrap();
    let obj = compiler.finish().unwrap();
    assert!(!obj.is_empty());
}

/// Keyword lookup compiles through the per-site inline cache
/// (writable data slot + miss block) on the AOT backend too.
#[test]
fn test_compile_keyword_lookup_ic() {
    let body = parse_body("(:name m)");
    let params = names(&["m"]);
    let ir = lower("get-name", &params, &body);

    let mut compiler = Compiler::new().unwrap();
    let func_id = compiler.declare_function("get-name", 1).unwrap();
    compiler.compile_function(&ir, func_id).unwrap();
    let obj = compiler.finish().unwrap();
    assert!(!obj.is_empty());
}

#[test]
fn a_name_is_declared_once() {
    let ir = lower("f", &names(&[]), &parse_body("42"));
    let mut compiler = Compiler::new().unwrap();
    let func_id = compiler.declare_function("f", 0).unwrap();
    assert_eq!(compiler.declare_function("f", 0).unwrap(), func_id);
    assert_ne!(compiler.declare_function("g", 0).unwrap(), func_id);
    // Another signature under the same name is refused, and so is a second definition.
    assert!(matches!(compiler.declare_function("f", 2), Err(CodegenError::Module(_))));
    compiler.compile_function(&ir, func_id).unwrap();
    assert!(matches!(compiler.compile_function(&ir, func_id), Err(CodegenError::Module(_))));
}

#[test]
fn a_compiler_goes_on_in_the_module_of_another() {
    let ir = lower("f", &names(&[]), &parse_body("42"));
    let mut first = Compiler::new().unwrap();
    let f = first.declare_function("f", 0).unwrap();
    first.compile_function(&ir, f).unwrap();
    let mut second = new_compiler_from_module(first.into_inner_module(), true).unwrap();
    assert_eq!(second.last_code_size(), 0);
    assert_eq!(second.declare_function("f", 0).unwrap(), f);
    assert!(matches!(second.compile_function(&ir, f), Err(CodegenError::Module(_))));
    assert!(!second.finish().unwrap().is_empty());
}

/// The runtime functions that a plan imports, in order.
fn imported(ir: &IrFunction, specs: &[Repr]) -> Vec<RtFn> {
    let plan = plan_function(ir, infer(ir, specs), &Vec::new(), specs).unwrap();
    let mut out = Vec::new();
    for op in plan.ops {
        if let Op::ImportRt(f) = op {
            out.push(f);
        }
    }
    out
}

#[test]
fn a_raw_sum_that_overflows_throws() {
    for src in ["(+ n 1)", "(- n 1)", "(* n 3)"] {
        let ir = lower("f", &names(&["n"]), &parse_body(src));
        let raw = imported(&ir, &[Repr::Long]);
        let at = raw.iter().position(|f| *f == RtFn::OverflowError).unwrap();
        assert_eq!(raw[at + 1], RtFn::Throw);
        assert!(!imported(&ir, &[Repr::Double]).contains(&RtFn::OverflowError));
        assert!(!imported(&ir, &[]).contains(&RtFn::OverflowError));
        let mut compiler = Compiler::new().unwrap();
        let id = compiler.declare_function("f", 1).unwrap();
        compiler.compile_function_with_specs(&ir, id, &[Repr::Long]).unwrap();
        assert!(!compiler.finish().unwrap().is_empty());
    }
}

#[test]
fn a_function_compiles_under_any_specialization() {
    let body = parse_body("(loop [i 0 acc a] (if (< i b) (recur (+ i 1) (* acc 2)) (if (= acc b) (- acc i) nil)))");
    let ir = lower("f", &names(&["a", "b"]), &body);
    for a in [Repr::Boxed, Repr::Long, Repr::Double] {
        for b in [Repr::Boxed, Repr::Long, Repr::Double] {
            let mut compiler = Compiler::new().unwrap();
            let id = compiler.declare_function("f", 2).unwrap();
            compiler.compile_function_with_specs(&ir, id, &[a, b]).unwrap();
            assert!(!compiler.finish().unwrap().is_empty());
        }
    }
}

#[test]
fn a_pinned_global_is_loaded_through_a_cache() {
    let mut ir = lower("f", &names(&[]), &parse_body("lib/x@abc"));
    assert!(imported(&ir, &[]).contains(&RtFn::LoadGlobal));
    ir.pins.push("x@abc".to_string());
    assert!(imported(&ir, &[]).contains(&RtFn::LoadGlobalVersionedIc));
    assert!(!imported(&ir, &[]).contains(&RtFn::LoadGlobal));
    let mut compiler = Compiler::new().unwrap();
    let id = compiler.declare_function("f", 0).unwrap();
    compiler.compile_function(&ir, id).unwrap();
    assert!(compiler.last_code_size() > 0);
    assert!(!compiler.finish().unwrap().is_empty());
}

#[test]
fn a_name_that_no_symbol_can_have_is_refused() {
    let mut compiler = Compiler::new().unwrap();
    assert!(matches!(compiler.declare_function("a\0b", 0), Err(CodegenError::Module(_))));
    assert!(compiler.declare_function("ab", 0).is_ok());
    assert!(matches!(compiler.declare_function("rt_add", 5), Err(CodegenError::Module(_))));
}

#[test]
fn more_parameters_than_a_block_can_have_are_refused() {
    let ir = lower("f", &names(&[]), &parse_body("1"));
    let mut compiler = Compiler::new().unwrap();
    let id = compiler.declare_function("f", 70000).unwrap();
    assert!(matches!(compiler.compile_function(&ir, id), Err(CodegenError::Codegen(_))));
    assert_eq!(compiler.last_code_size(), 0);
}

#[test]
fn a_lowered_function_returns_once_and_numbers_its_blocks() {
    let body = parse_body("(loop [i 0] (if (< i n) (recur (+ i 1)) (and i (or n i))))");
    let ir = lower("f", &names(&["n"]), &body);
    assert_eq!(ir.blocks.len(), ir.next_block as usize);
    let returns = ir.blocks.iter().filter(|b| matches!(b.terminator, Terminator::Return(_))).count();
    assert_eq!(returns, 1);
    assert!(matches!(ir.blocks.last().unwrap().terminator, Terminator::Return(_)));
}

#[test]
fn a_lowered_function_keeps_its_parameters_and_starts_in_block_zero() {
    let ir = lower("f", &names(&["a", "b", "c"]), &parse_body("(if a b c)"));
    let params: Vec<(&str, u32)> = ir.params.iter().map(|p| (p.0.as_str(), p.1 .0)).collect();
    assert_eq!(params, vec![("a", 0), ("b", 1), ("c", 2)]);
    assert_eq!(ir.blocks[0].id.0, 0);
}
