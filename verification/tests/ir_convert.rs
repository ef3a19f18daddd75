use cljrs_compiler::ir::{Const, Inst, Terminator, VarId};
use cljrs_compiler::ir_convert::{keyword_to_known_fn, value_to_const, value_to_inst, value_to_ir_function, value_to_terminator, ConvertError};
use cljrs_compiler::ir::KnownFn;
use cljrs_compiler::value::{Name, Value};

fn kw(s: &str) -> Value {
    Value::Keyword(Name { ns: None, name: s.to_string() })
}

fn make_map(pairs: Vec<(Value, Value)>) -> Value {
    Value::Dict(pairs)
}

fn make_vec(items: Vec<Value>) -> Value {
    Value::Vector(items)
}

#[test]
fn ir_convert_test_const_nil() {
    let val = make_map(vec![(kw("type"), kw("nil"))]);
    let c = value_to_const(&val).unwrap();
    assert!(matches!(c, Const::Nil));
}

#[test]
fn ir_convert_test_const_long() {
    let val = make_map(vec![(kw("type"), kw("long")), (kw("val"), Value::Long(42))]);
    let c = value_to_const(&val).unwrap();
    assert!(matches!(c, Const::Long(42)));
}

#[test]
fn test_terminator_return() {
    let val = make_map(vec![(kw("op"), kw("return")), (kw("var"), Value::Long(0))]);
    let t = value_to_terminator(&val).unwrap();
    assert!(matches!(t, Terminator::Return(VarId(0))));
}

#[test]
fn test_inst_const() {
    let const_map = make_map(vec![(kw("type"), kw("long")), (kw("val"), Value::Long(42))]);
    let val = make_map(vec![
        (kw("op"), kw("const")),
        (kw("dst"), Value::Long(0)),
        (kw("value"), const_map),
    ]);
    let inst = value_to_inst(&val).unwrap();
    assert!(matches!(inst, Inst::Const(VarId(0), Const::Long(42))));
}

#[test]
fn test_simple_ir_function() {
    // Build: {:name "test" :params [["x" 0]] :blocks [...] :next-var 2 :next-block 1}
    let const_val = make_map(vec![(kw("type"), kw("long")), (kw("val"), Value::Long(42))]);
    let inst = make_map(vec![
        (kw("op"), kw("const")),
        (kw("dst"), Value::Long(1)),
        (kw("value"), const_val),
    ]);
    let terminator = make_map(vec![(kw("op"), kw("return")), (kw("var"), Value::Long(1))]);
    let block = make_map(vec![
        (kw("id"), Value::Long(0)),
        (kw("phis"), make_vec(vec![])),
        (kw("insts"), make_vec(vec![inst])),
        (kw("terminator"), terminator),
    ]);
    let param = make_vec(vec![Value::Str("x".to_string()), Value::Long(0)]);
    let ir_val = make_map(vec![
        (kw("name"), Value::Str("test".to_string())),
        (kw("params"), make_vec(vec![param])),
        (kw("blocks"), make_vec(vec![block])),
        (kw("next-var"), Value::Long(2)),
        (kw("next-block"), Value::Long(1)),
    ]);

    let ir = value_to_ir_function(&ir_val).unwrap();
    assert_eq!(ir.name.as_deref(), Some("test"));
    assert_eq!(ir.params.len(), 1);
    assert_eq!(ir.params[0].0.as_str(), "x");
    assert_eq!(ir.blocks.len(), 1);
    assert_eq!(ir.next_var, 2);
    assert_eq!(ir.next_block, 1);
}

#[test]
fn known_functions_have_keywords() {
    assert_eq!(keyword_to_known_fn("+"), Some(KnownFn::Add));
    assert_eq!(keyword_to_known_fn("assoc"), Some(KnownFn::Assoc));
    assert_eq!(keyword_to_known_fn("no-such-fn"), None);
}

#[test]
fn each_error_has_its_input() {
    assert!(matches!(value_to_const(&make_map(vec![])), Err(ConvertError::MissingField(_))));
    assert!(matches!(value_to_const(&Value::Long(1)), Err(ConvertError::TypeError(_))));
    assert!(matches!(value_to_const(&make_map(vec![(kw("type"), kw("no-such-type"))])), Err(ConvertError::UnknownVariant(_))));
}
