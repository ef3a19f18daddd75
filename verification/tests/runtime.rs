use cljrs_compiler::rt_abi::arrays::{rt_aget, rt_aget_double, rt_aget_long, rt_alength, rt_aset, rt_aset_double, rt_aset_long, Element};
use cljrs_compiler::rt_abi::building::{as_pair, note_flag, note_value, pred_truthy, rt_alloc_cons, rt_alloc_list, rt_alloc_map, rt_alloc_set, rt_alloc_vector, rt_count_filter, rt_into, rt_into_filter, rt_into_map, rt_into_mapcat, rt_mapcat, rt_region_alloc_vector, rt_repeatedly, Into};
use cljrs_compiler::rt_abi::collections::{rt_assoc, rt_get};
use cljrs_compiler::rt_abi::constants::{rt_const_char, rt_const_keyword, rt_const_string, rt_const_symbol, rt_kw_ic_fill};
use cljrs_compiler::rt_abi::caches::{anchor_rt_symbols, box_or_intern_val, deopt_sentinel_addr, intern_keyword, ic_candidate, ic_fill, rt_deopt, rt_identical, rt_load_global_versioned_ic, rt_scratch_ptr, set_closure_escape_hook, snapshot, versioned_key, Answer, Event, Hook, IcEntry, JitStats, Pinned, Place};
use cljrs_compiler::rt_abi::calls::{after_catch, arity_of, expected_arities, invoke_boxed, prepare_call, rt_call, rt_call_compiled, rt_make_fn, rt_make_fn_multi, rt_make_fn_variadic, rt_println_n, rt_str_n, rt_throw, rt_try, select_arity, take_pending_exception_value, Arity, ArityEntry, Body, Invoked, Pending, TryStep};
use cljrs_compiler::rt_abi::core_calls::{rt_concat, rt_every, rt_partition4, rt_reduce3};
use cljrs_compiler::rt_abi::globals::{after_load, after_pin, rt_def_var, rt_load_global, rt_load_var, Alias, Globals, Loaded, Refer};
use cljrs_compiler::rt_abi::machine::{rt_async_poll_ready, rt_async_register, rt_async_set_result, rt_async_take_result, rt_region_end, rt_region_start, rt_sm_set_state, rt_sm_state, rt_state_load, rt_state_store, unwind_regions_to, Readiness, Regions, StateMachine};
use cljrs_compiler::rt_abi::numbers::{is_double_equal, is_double_less, rt_add, rt_box_bool, rt_case_eq, rt_const_double, rt_const_false, rt_const_long, rt_const_nil, rt_const_true, rt_div, rt_eq, rt_gt, rt_gte, rt_is_number, rt_is_seq, rt_lt, rt_lte, rt_mul, rt_overflow_error, rt_rem, rt_sub, rt_truthiness, rt_unbox_double, rt_unbox_long, rt_unchecked_add, rt_unchecked_mul, rt_value_tag, Arith, FloatOp, TAG_BOOL, TAG_DOUBLE, TAG_LONG, TAG_NIL, TAG_OTHER};
use cljrs_compiler::rt_abi::sequences::{apply_args, realize_seq_elems, rt_conj, rt_contains, rt_count, rt_disj, rt_dissoc, rt_first, rt_is_empty, rt_nth, rt_peek, rt_pop, rt_rest, rt_seq, rt_vec};
use cljrs_compiler::rt_abi::state::{rt_assoc_bang, rt_atom_reset, rt_atom_swap, rt_conj_bang, rt_persistent_bang, rt_set_bang, rt_transient, rt_with_bindings, swap_args, Assigned, Change, Swapped, Transient};
use cljrs_compiler::value::{Name, Value};

fn long(n: i64) -> Value {
    rt_const_long(n)
}

fn double(d: f64) -> Value {
    rt_const_double(d.to_bits())
}

fn keyword(name: &str) -> Value {
    Value::Keyword(Name { ns: None, name: name.to_string() })
}

fn text(t: &str) -> Value {
    Value::Str(t.to_string())
}

/// The equality of a host that knows the values in these tests.
fn same(a: &Value, b: &Value) -> bool {
    format!("{a:?}") == format!("{b:?}")
}

fn shows(v: &Value, want: &Value) -> bool {
    same(v, want)
}

fn longs(ns: &[i64]) -> Vec<Value> {
    ns.iter().map(|n| long(*n)).collect()
}

fn value_of(r: Arith) -> Value {
    match r {
        Arith::Value(v) => v,
        other => panic!("expected a value, got {other:?}"),
    }
}

#[test]
fn state_roundtrips() {
    let mut sm = StateMachine::new(0);
    assert_eq!(rt_sm_state(&sm), 0);
    rt_sm_set_state(&mut sm, 3);
    assert_eq!(rt_sm_state(&sm), 3);
}

#[test]
fn slot_store_and_load_roundtrip() {
    let mut sm = StateMachine::new(2);
    let v = rt_const_long(99);
    rt_state_store(&mut sm, 1, &v);
    let loaded = rt_state_load(&sm, 1);
    assert!(matches!(loaded, Value::Long(99)));
}

#[test]
fn register_and_poll_ready_on_plain_value() {
    let mut sm = StateMachine::new(1);
    rt_async_register(&mut sm, &rt_const_long(7));
    assert_eq!(rt_async_poll_ready(&mut sm, None), 1);
    let r = rt_async_take_result(&sm);
    assert!(matches!(r, Value::Long(7)));
}

#[test]
fn a_future_is_polled_until_it_is_ready() {
    let mut sm = StateMachine::new(0);
    rt_async_register(&mut sm, &long(1));
    assert_eq!(rt_async_poll_ready(&mut sm, Some(Readiness::Pending)), 0);
    assert!(matches!(rt_async_take_result(&sm), Value::Long(1)));
    assert_eq!(rt_async_poll_ready(&mut sm, Some(Readiness::Ready(long(5)))), 1);
    assert!(matches!(rt_async_take_result(&sm), Value::Long(5)));
    rt_async_set_result(&mut sm, &long(6));
    assert!(matches!(rt_async_take_result(&sm), Value::Long(6)));
}

#[test]
fn a_slot_is_nil_until_it_is_stored_to() {
    let mut sm = StateMachine::new(2);
    rt_state_store(&mut sm, 1, &long(1));
    assert!(matches!(rt_state_load(&sm, 0), Value::Nil));
}

#[test]
fn rt_abi_test_const_nil() {
    assert!(matches!(rt_const_nil(), Value::Nil));
}

#[test]
fn rt_abi_test_const_long() {
    assert!(matches!(rt_const_long(42), Value::Long(42)));
}

#[test]
fn test_truthiness() {
    assert_eq!(rt_truthiness(&rt_const_nil()), 0);
    assert_eq!(rt_truthiness(&rt_const_false()), 0);
    assert_eq!(rt_truthiness(&rt_const_true()), 1);
    assert_eq!(rt_truthiness(&rt_const_long(0)), 1);
}

#[test]
fn test_add_longs() {
    let a = rt_const_long(10);
    let b = rt_const_long(32);
    let result = rt_add(&a, &b);
    assert!(matches!(result, Arith::Value(Value::Long(42))));
}

#[test]
fn test_eq() {
    let a = rt_const_long(5);
    let b = rt_const_long(5);
    let result = rt_eq(&a, &b, &same);
    assert!(matches!(result, Value::Bool(true)));

    let c = rt_const_long(6);
    let result2 = rt_eq(&a, &c, &same);
    assert!(matches!(result2, Value::Bool(false)));
}

#[test]
fn test_alloc_vector() {
    let elems = vec![rt_const_long(1), rt_const_long(2), rt_const_long(3)];
    let v = rt_alloc_vector(&elems);
    if let Value::Vector(vec) = v {
        assert_eq!(vec.len(), 3);
    } else {
        panic!("expected vector");
    }
}

#[test]
fn test_count() {
    let elems = vec![rt_const_long(1), rt_const_long(2)];
    let v = rt_alloc_vector(&elems);
    let n = rt_count(&v);
    assert!(matches!(n, Value::Long(2)));
}

#[test]
fn test_count_cons_chain() {
    let nil = rt_const_nil();
    let c1 = rt_alloc_cons(&rt_const_long(3), &nil);
    let c2 = rt_alloc_cons(&rt_const_long(2), &c1);
    let c3 = rt_alloc_cons(&rt_const_long(1), &c2);
    let n = rt_count(&c3);
    assert!(
        matches!(n, Value::Long(3)),
        "count of a 3-element cons chain must be 3, got {:?}",
        n
    );
}

#[test]
fn integers_overflow_where_they_do_not_fit() {
    assert!(matches!(rt_add(&long(i64::MAX), &long(1)), Arith::Overflow));
    assert!(matches!(rt_sub(&long(i64::MIN), &long(1)), Arith::Overflow));
    assert!(matches!(rt_mul(&long(i64::MAX), &long(2)), Arith::Overflow));
    assert!(matches!(rt_unchecked_add(&long(i64::MAX), &long(1)), Arith::Value(Value::Long(i64::MIN))));
    assert!(matches!(rt_unchecked_mul(&long(i64::MAX), &long(2)), Arith::Value(Value::Long(-2))));
    assert!(matches!(rt_overflow_error(), Value::Error(t) if t == "integer overflow"));
}

#[test]
fn a_float_makes_the_operation_one_on_floats() {
    match rt_mul(&long(3), &double(0.5)) {
        Arith::Float(FloatOp::Mul, x, y) => {
            assert_eq!(f64::from_bits(x), 3.0);
            assert_eq!(f64::from_bits(y), 0.5);
        },
        other => panic!("expected a float operation, got {other:?}"),
    }
    assert!(matches!(rt_add(&text("a"), &long(1)), Arith::Value(Value::Nil)));
}

#[test]
fn quotients_drop_their_fraction_and_remainders_keep_the_sign() {
    assert!(shows(&value_of(rt_div(&long(-7), &long(2))), &long(-3)));
    assert!(shows(&value_of(rt_rem(&long(-7), &long(2))), &long(-1)));
    assert!(shows(&value_of(rt_div(&long(7), &long(-2))), &long(-3)));
    assert!(shows(&value_of(rt_rem(&long(7), &long(-2))), &long(1)));
    assert!(shows(&value_of(rt_div(&long(1), &long(0))), &Value::Nil));
    assert!(shows(&value_of(rt_rem(&long(1), &long(0))), &Value::Nil));
}

#[test]
fn floats_are_ordered_as_the_machine_orders_them() {
    let samples = [0.0, -0.0, 1.0, -1.0, 1e300, -1e300, f64::INFINITY, f64::NEG_INFINITY, f64::NAN, f64::MIN_POSITIVE];
    for x in samples {
        for y in samples {
            assert_eq!(is_double_less(x.to_bits(), y.to_bits()), x < y);
            assert_eq!(is_double_equal(x.to_bits(), y.to_bits()), x == y);
            assert!(shows(&rt_lt(&double(x), &double(y)), &Value::Bool(x < y)));
            assert!(shows(&rt_gt(&double(x), &double(y)), &Value::Bool(x > y)));
            assert!(shows(&rt_lte(&double(x), &double(y)), &Value::Bool(x <= y)));
            assert!(shows(&rt_gte(&double(x), &double(y)), &Value::Bool(x >= y)));
        }
    }
    assert!(shows(&rt_lt(&long(1), &double(1.5)), &Value::Bool(true)));
    assert!(shows(&rt_lt(&text("a"), &long(1)), &Value::Bool(false)));
}

#[test]
fn a_case_tells_kinds_of_numbers_apart() {
    let always = |_: &Value, _: &Value| true;
    assert!(shows(&rt_case_eq(&long(1), &double(1.0), &always), &Value::Bool(false)));
    assert!(shows(&rt_case_eq(&long(1), &Value::BigInt("1".to_string()), &always), &Value::Bool(true)));
    assert!(shows(&rt_case_eq(&text("a"), &long(1), &always), &Value::Bool(true)));
}

#[test]
fn tags_tell_what_to_unbox() {
    assert_eq!(rt_value_tag(&long(1)), TAG_LONG);
    assert_eq!(rt_value_tag(&double(1.0)), TAG_DOUBLE);
    assert_eq!(rt_value_tag(&Value::Bool(true)), TAG_BOOL);
    assert_eq!(rt_value_tag(&Value::Nil), TAG_NIL);
    assert_eq!(rt_value_tag(&text("a")), TAG_OTHER);
    assert_eq!(rt_unbox_long(&long(9)), 9);
    assert_eq!(rt_unbox_long(&text("a")), 0);
    assert_eq!(f64::from_bits(rt_unbox_double(&double(2.5))), 2.5);
    assert!(shows(&rt_box_bool(2), &Value::Bool(true)));
    assert!(shows(&rt_box_bool(0), &Value::Bool(false)));
    assert!(shows(&rt_is_number(&double(1.0)), &Value::Bool(true)));
    assert!(shows(&rt_is_seq(&Value::Vector(Vec::new())), &Value::Bool(false)));
}

#[test]
fn entries_are_set_and_found() {
    let m = rt_alloc_map(&vec![(keyword("a"), long(1)), (keyword("a"), long(2))], &same);
    assert!(shows(&rt_count(&m), &long(1)));
    assert!(shows(&rt_get(&m, &keyword("a"), &same), &long(2)));
    assert!(shows(&rt_get(&m, &keyword("b"), &same), &Value::Nil));
    let more = rt_assoc(&m, &keyword("b"), &long(3), &same);
    assert!(shows(&rt_get(&more, &keyword("b"), &same), &long(3)));
    assert!(shows(&rt_get(&more, &keyword("a"), &same), &long(2)));
    assert!(shows(&rt_contains(&more, &keyword("b"), &same), &Value::Bool(true)));
    let less = rt_dissoc(&more, &keyword("b"), &same);
    assert!(shows(&rt_contains(&less, &keyword("b"), &same), &Value::Bool(false)));
    let s = rt_alloc_set(&longs(&[1, 2, 1]), &same);
    assert!(shows(&rt_count(&s), &long(2)));
    assert!(shows(&rt_count(&rt_disj(&s, &long(1), &same)), &long(1)));
}

#[test]
fn the_head_and_the_rest_make_the_whole() {
    let v = rt_alloc_vector(&longs(&[1, 2, 3]));
    assert!(shows(&rt_first(&v), &long(1)));
    assert!(shows(&rt_count(&rt_rest(&v)), &long(2)));
    assert!(shows(&rt_nth(&v, &long(2)), &long(3)));
    assert!(shows(&rt_nth(&v, &long(3)), &Value::Nil));
    assert!(shows(&rt_seq(&rt_alloc_vector(&Vec::new())), &Value::Nil));
    assert!(shows(&rt_is_empty(&Value::Nil), &Value::Bool(true)));
    assert!(shows(&rt_first(&Value::Nil), &Value::Nil));
}

#[test]
fn a_value_goes_where_the_collection_takes_it() {
    let v = rt_conj(&rt_alloc_vector(&longs(&[1])), &long(2), &same, 0);
    assert!(shows(&v, &Value::Vector(longs(&[1, 2]))));
    let l = rt_conj(&rt_alloc_list(&longs(&[1])), &long(2), &same, 0);
    assert!(shows(&rt_first(&l), &long(2)));
    assert!(shows(&rt_peek(&v).unwrap(), &long(2)));
    assert!(shows(&rt_pop(&v).unwrap(), &Value::Vector(longs(&[1]))));
    assert!(shows(&rt_vec(&v).unwrap(), &v));
    assert!(rt_vec(&l).is_none());
}

#[test]
fn a_sorted_set_keeps_its_order() {
    let s = Value::SortedSet(longs(&[1, 5]));
    assert!(shows(&rt_conj(&s, &long(3), &same, 1), &Value::SortedSet(longs(&[1, 3, 5]))));
    assert!(shows(&rt_conj(&s, &long(9), &same, 2), &Value::SortedSet(longs(&[1, 5, 9]))));
    assert!(shows(&rt_conj(&s, &long(5), &same, 0), &s));
    assert!(shows(&rt_disj(&s, &long(1), &same), &Value::SortedSet(longs(&[5]))));
    assert!(shows(&rt_count(&s), &long(2)));
    assert!(shows(&rt_contains(&s, &long(5), &same), &Value::Bool(true)));
    assert!(shows(&rt_into(&Value::Vector(longs(&[0])), &s, &same).unwrap(), &Value::Vector(longs(&[0, 1, 5]))));
    assert!(rt_into(&s, &Value::Vector(longs(&[0])), &same).is_none());
    assert_eq!(pred_truthy(&s, &long(5), &same), Some(true));
    assert_eq!(pred_truthy(&s, &long(4), &same), Some(false));
    let m = Value::Dict(vec![(long(7), Value::SortedSet(longs(&[1, 5])))]);
    assert!(shows(&rt_mapcat(&m, &Value::Vector(longs(&[7])), &same).unwrap(), &Value::Vector(longs(&[1, 5]))));
}

#[test]
fn a_lazy_sequence_counts_as_what_it_realizes_to() {
    let lazy = Value::LazySeq(Box::new(rt_alloc_cons(&long(1), &Value::Nil)));
    assert_eq!(realize_seq_elems(&lazy).map(|vs| vs.len()), Some(1));
    assert_eq!(apply_args(&rt_alloc_cons(&long(0), &lazy)).len(), 2);
}

#[test]
fn collections_are_poured_into_others() {
    let v = Value::Vector(longs(&[1]));
    assert!(shows(&rt_into(&v, &Value::Vector(longs(&[2, 3])), &same).unwrap(), &Value::Vector(longs(&[1, 2, 3]))));
    assert!(rt_into(&v, &Value::List(longs(&[2])), &same).is_none());
    let set = Value::HashSet(longs(&[1]));
    assert!(shows(&rt_into(&set, &Value::List(longs(&[1, 2])), &same).unwrap(), &Value::HashSet(longs(&[1, 2]))));
    let dict = Value::Dict(Vec::new());
    let pair = Value::Vector(vec![keyword("a"), long(1)]);
    assert!(as_pair(&pair).is_some());
    assert!(as_pair(&v).is_none());
    let poured = rt_into_map(&dict, &vec![pair], &same).unwrap();
    assert!(shows(&rt_get(&poured, &keyword("a"), &same), &long(1)));
}

#[test]
fn a_filtered_collection_is_poured_in_one_go() {
    let coll = Value::Vector(longs(&[1, 2, 3]));
    let flags = vec![true, false, true];
    match rt_into_filter(&Value::Vector(longs(&[0])), &coll, &flags, &same) {
        Into::Value(v) => assert!(shows(&v, &Value::Vector(longs(&[0, 1, 3])))),
        other => panic!("expected a vector, got {other:?}"),
    }
    match rt_into_filter(&Value::List(Vec::new()), &coll, &flags, &same) {
        Into::Rest(vs) => assert_eq!(vs.len(), 2),
        other => panic!("expected values, got {other:?}"),
    }
    assert!(matches!(rt_into_filter(&Value::Nil, &text("abc"), &Vec::new(), &same), Into::Again));
    assert!(shows(&rt_count_filter(&flags), &long(2)));
    assert_eq!(pred_truthy(&Value::HashSet(longs(&[4])), &long(4), &same), Some(true));
}

#[test]
fn mapped_collections_are_poured_in_one_go() {
    let results = vec![Value::Vector(longs(&[1, 2])), Value::Nil, Value::List(longs(&[3]))];
    match rt_into_mapcat(&Value::HashSet(longs(&[2])), &results, &same) {
        Into::Value(v) => assert!(shows(&v, &Value::HashSet(longs(&[2, 1, 3])))),
        other => panic!("expected a set, got {other:?}"),
    }
    assert!(matches!(rt_into_mapcat(&Value::Nil, &vec![long(1)], &same), Into::Again));
    let graph = Value::Dict(vec![(long(1), Value::Vector(longs(&[2, 3])))]);
    assert!(shows(&rt_mapcat(&graph, &Value::Vector(longs(&[1, 9])), &same).unwrap(), &Value::Vector(longs(&[2, 3]))));
    assert_eq!(rt_repeatedly(&long(3)), Some(3));
    let regions = Regions { open: Vec::new(), active: vec![5, 6] };
    let placed = rt_region_alloc_vector(&regions, 77, &longs(&[1]));
    assert_eq!(placed.region, Some(77));
    assert_eq!(rt_region_alloc_vector(&regions, 0, &longs(&[1])).region, Some(6));
    assert!(shows(&placed.value, &Value::Vector(longs(&[1]))));
}

#[test]
fn what_was_stored_in_an_array_is_loaded() {
    let mut arr = Value::LongArray(vec![1, 2, 3]);
    let kind = "long-array";
    assert_eq!(rt_alength(&arr, kind).ok(), Some(3));
    assert!(rt_aset_long(&mut arr, 1, 9, kind).is_ok());
    assert_eq!(rt_aget_long(&arr, 1, kind).ok(), Some(9));
    assert_eq!(rt_aget_long(&arr, 0, kind).ok(), Some(1));
    assert!(rt_alength(&long(1), "long").is_err());
    let mut doubles = Value::DoubleArray(vec![0]);
    assert!(rt_aset_double(&mut doubles, 0, 2.5f64.to_bits(), "double-array").is_ok());
    assert_eq!(rt_aget_double(&doubles, 0, "double-array").ok().map(f64::from_bits), Some(2.5));
    let mut objects = Value::ObjectArray(vec![Value::Nil]);
    assert!(rt_aset(&mut objects, &long(0), &text("x"), "object-array").is_ok());
    match rt_aget(&objects, &long(0), "object-array") {
        Ok(Element::Value(v)) => assert!(shows(&v, &text("x"))),
        other => panic!("expected a value, got {other:?}"),
    }
}

#[test]
fn an_index_out_of_bounds_is_told_with_the_length() {
    let mut arr = Value::LongArray(vec![1, 2, 3]);
    assert!(matches!(rt_aget_long(&arr, 3, "long-array"), Err(Value::OutOfBounds(3, 3))));
    assert!(matches!(rt_aset_long(&mut arr, 7, 0, "long-array"), Err(Value::OutOfBounds(7, 3))));
    assert!(matches!(rt_aget(&arr, &long(5), "long-array"), Err(Value::OutOfBounds(5, 3))));
    match rt_aget_long(&arr, -1, "long-array") {
        Err(Value::Error(t)) => assert!(t.contains("-1") && t.contains("3")),
        other => panic!("expected an error, got {other:?}"),
    }
    match rt_alength(&text("x"), "string") {
        Err(Value::Error(t)) => assert!(t.contains("string")),
        other => panic!("expected an error, got {other:?}"),
    }
}

#[test]
fn a_call_finds_the_arity_that_fits() {
    let one = ArityEntry { fn_addr: 1, params: 1, variadic: false };
    let many = ArityEntry { fn_addr: 2, params: 2, variadic: true };
    let f = rt_make_fn_multi("f", vec![one, many], vec![long(7)], &Hook { id: None }).0;
    assert_eq!(arity_of(&f.arities), Arity::Variadic(1));
    assert_eq!(select_arity(&f.arities, 1).map(|a| a.fn_addr), Some(1));
    assert_eq!(select_arity(&f.arities, 5).map(|a| a.fn_addr), Some(2));
    assert_eq!(select_arity(&f.arities, 0).map(|a| a.fn_addr), None);
    let call = prepare_call(&f, &longs(&[1, 2, 3])).unwrap();
    assert_eq!(call.fn_addr, 2);
    assert_eq!(call.args.len(), 4);
    assert!(shows(&call.args[0], &long(7)));
    assert!(shows(&call.args[3], &Value::List(longs(&[3]))));
    let refused = prepare_call(&f, &Vec::new());
    assert!(refused.is_err());
    assert_eq!(expected_arities(&f.arities), "1 or 2+");
    let fixed = rt_make_fn("g", 5, 2, Vec::new(), &Hook { id: None }).0;
    assert_eq!(arity_of(&fixed.arities), Arity::Fixed(2));
    let open = rt_make_fn_variadic("h", 5, 0, Vec::new(), &Hook { id: None }).0;
    let bare = prepare_call(&open, &Vec::new()).unwrap();
    assert!(shows(&bare.args[0], &Value::Nil));
}

#[test]
fn compiled_code_takes_so_many_values() {
    assert!(rt_call_compiled(16).is_ok());
    match rt_call_compiled(17) {
        Err(Value::Str(t)) => assert_eq!(t, "compiled function arity 17 exceeds trampoline maximum (16)"),
        other => panic!("expected a complaint, got {other:?}"),
    }
}

#[test]
fn maps_and_sets_are_called() {
    let m = Value::Dict(vec![(keyword("a"), long(1))]);
    assert!(shows(&rt_call(&m, &vec![keyword("a")], &same).unwrap(), &long(1)));
    assert!(shows(&rt_call(&m, &vec![keyword("b")], &same).unwrap(), &Value::Nil));
    let s = Value::HashSet(longs(&[4]));
    assert!(shows(&rt_call(&s, &longs(&[4]), &same).unwrap(), &long(4)));
    assert!(shows(&rt_call(&s, &longs(&[5]), &same).unwrap(), &Value::Nil));
    assert!(rt_call(&m, &Vec::new(), &same).is_none());
    assert!(rt_call(&text("f"), &Vec::new(), &same).is_none());
}

#[test]
fn what_was_thrown_is_caught_once() {
    let mut pending = Pending { exception: None };
    assert!(shows(&rt_throw(&mut pending, text("boom")), &Value::Nil));
    let thrown = take_pending_exception_value(&mut pending);
    assert!(shows(thrown.as_ref().unwrap(), &text("boom")));
    assert!(take_pending_exception_value(&mut pending).is_none());
    match rt_try(thrown, Body::Value(Value::Nil), true) {
        (TryStep::Catch(e), true) => assert!(shows(&e, &text("boom"))),
        other => panic!("expected a catch, got {other:?}"),
    }
    assert!(matches!(rt_try(None, Body::Value(long(1)), true), (TryStep::Done(Value::Long(1)), false)));
    assert!(matches!(rt_try(None, Body::Failed("no".to_string()), false), (TryStep::Done(Value::Nil), true)));
    assert!(shows(&after_catch(Invoked::Thrown(long(1))), &Value::Nil));
    assert!(invoke_boxed(Invoked::Thrown(long(1))).thrown.is_some());
}

#[test]
fn texts_are_put_together() {
    let parts = vec![(false, "a".to_string()), (true, "nil".to_string()), (false, "b".to_string())];
    assert!(shows(&rt_str_n(&parts), &text("ab")));
    assert_eq!(rt_println_n(&vec!["a".to_string(), "b".to_string()]), "a b");
}

#[test]
fn globals_are_found_where_they_were_defined() {
    let mut g = Globals { bindings: Vec::new(), refers: Vec::new(), aliases: Vec::new(), loaded: vec!["user".to_string()] };
    rt_def_var(&mut g, "user", "x", &long(1));
    rt_def_var(&mut g, "user", "x", &long(2));
    assert_eq!(g.bindings.len(), 1);
    assert!(rt_load_var(&g, "user", "user", "x").is_some());
    assert!(rt_load_var(&g, "user", "user", "y").is_none());
    match rt_load_global(&g, "user", "user", "x", None, None) {
        Loaded::Value(v) => assert!(shows(&v, &long(2))),
        other => panic!("expected a value, got {other:?}"),
    }
    g.aliases.push(Alias { current: "user".to_string(), alias: "u".to_string(), ns: "user".to_string() });
    assert!(matches!(rt_load_global(&g, "user", "u", "x", None, None), Loaded::Value(_)));
}

#[test]
fn a_name_that_is_referred_to_is_found() {
    let mut g = Globals { bindings: Vec::new(), refers: Vec::new(), aliases: Vec::new(), loaded: Vec::new() };
    rt_def_var(&mut g, "clojure.core", "inc", &long(1));
    assert!(matches!(rt_load_global(&g, "user", "user", "inc", None, None), Loaded::Missing));
    g.refers.push(Refer { current: "user".to_string(), name: "inc".to_string(), ns: "clojure.core".to_string(), target: "inc".to_string() });
    match rt_load_global(&g, "user", "user", "inc", None, None) {
        Loaded::Value(v) => assert!(shows(&v, &long(1))),
        other => panic!("expected a value, got {other:?}"),
    }
    assert_eq!(rt_load_var(&g, "user", "user", "inc"), Some(0));
    rt_def_var(&mut g, "user", "inc", &long(2));
    match rt_load_global(&g, "user", "user", "inc", None, None) {
        Loaded::Value(v) => assert!(shows(&v, &long(2))),
        other => panic!("expected a value, got {other:?}"),
    }
}

#[test]
fn a_failed_pin_is_left_pending() {
    let mut pending = Pending { exception: None };
    let empty = Globals { bindings: Vec::new(), refers: Vec::new(), aliases: Vec::new(), loaded: Vec::new() };
    let pin = Some(("f".to_string(), "abc".to_string()));
    assert!(matches!(rt_load_global(&empty, "user", "lib", "f@abc", pin, None), Loaded::Pinned(b, c) if b == "f" && c == "abc"));
    assert!(shows(&after_pin(&mut pending, Ok(long(3))), &long(3)));
    assert!(pending.exception.is_none());
    assert!(shows(&after_pin(&mut pending, Err("no such commit".to_string())), &Value::Nil));
    assert!(shows(&pending.exception.take().unwrap(), &text("no such commit")));
    let mut g = Globals { bindings: Vec::new(), refers: Vec::new(), aliases: Vec::new(), loaded: Vec::new() };
    assert!(matches!(rt_load_global(&g, "user", "lib@abc", "f", None, Some(("lib".to_string(), "abc".to_string()))), Loaded::Load(b, c) if b == "lib" && c == "abc"));
    assert!(shows(&after_load(&mut pending, &g, "lib@abc", "f", Ok(())), &Value::Nil));
    rt_def_var(&mut g, "lib@abc", "f", &long(8));
    assert!(shows(&after_load(&mut pending, &g, "lib@abc", "f", Ok(())), &long(8)));
    assert!(pending.exception.is_none());
    assert!(shows(&after_load(&mut pending, &g, "lib@abc", "f", Err("gone".to_string())), &Value::Nil));
    assert!(shows(&pending.exception.unwrap(), &text("gone")));
}

#[test]
fn regions_close_in_the_order_in_which_they_opened() {
    let mut regions = Regions { open: Vec::new(), active: vec![9] };
    rt_region_start(&mut regions, 1);
    rt_region_start(&mut regions, 2);
    rt_region_start(&mut regions, 3);
    assert_eq!(rt_region_end(&mut regions), Some(3));
    assert_eq!(regions.active, vec![9, 1, 2]);
    assert_eq!(unwind_regions_to(&mut regions, 2, 1), vec![2]);
    assert_eq!(regions.active, vec![9, 1]);
    regions.active.push(7);
    assert_eq!(unwind_regions_to(&mut regions, 1, 0), vec![1]);
    assert_eq!(regions.active, vec![9]);
    assert_eq!(rt_region_end(&mut regions), None);
}

#[test]
fn names_are_interned_once() {
    let mut table: Vec<String> = Vec::new();
    assert_eq!(intern_keyword(&mut table, "a"), 0);
    assert_eq!(intern_keyword(&mut table, "b"), 1);
    assert_eq!(intern_keyword(&mut table, "a"), 0);
    assert_eq!(rt_const_keyword(&mut table, b"b"), 1);
    assert_eq!(rt_const_keyword(&mut table, &[0xff]), 2);
    assert_eq!(table[2], "??");
    let mut stats = JitStats { boxed_arith_calls: 0, guard_deopts: 0, kw_ic_fills: 0, proto_ic_hits: 0, proto_ic_misses: 0 };
    let mut slot: usize = 0;
    assert_eq!(rt_kw_ic_fill(&mut table, &mut stats, b"a", &mut slot), 0);
    assert_eq!(slot, 1);
    assert_eq!(stats.kw_ic_fills, 1);
}

#[test]
fn bytes_become_texts() {
    assert!(shows(&rt_const_string("h\u{e9}".as_bytes()), &text("h\u{e9}")));
    assert!(shows(&rt_const_string(&[0xff, 0xfe]), &text("<invalid utf8>")));
    assert!(shows(&rt_const_symbol(b"x"), &Value::Symbol(Name { ns: None, name: "x".to_string() })));
    assert!(matches!(rt_const_char(0x41), Value::Char('A')));
    assert!(matches!(rt_const_char(0xD800), Value::Char('\u{FFFD}')));
    assert!(matches!(rt_const_char(0x110000), Value::Char('\u{FFFD}')));
}

#[test]
fn a_pinned_name_is_resolved_once() {
    let mut table: Vec<String> = Vec::new();
    let mut slot: usize = 0;
    let mut pending = Pending { exception: None };
    assert_eq!(rt_load_global_versioned_ic(&mut table, "ns", "f", false, Answer::Found, &mut slot, &mut pending), Pinned::Generic);
    assert_eq!(rt_load_global_versioned_ic(&mut table, "ns", "f@abc", true, Answer::Unasked, &mut slot, &mut pending), Pinned::Missing);
    assert!(pending.exception.is_none());
    let failed = Answer::Failed("no such commit".to_string());
    assert_eq!(rt_load_global_versioned_ic(&mut table, "ns", "f@abc", true, failed, &mut slot, &mut pending), Pinned::Missing);
    assert!(shows(&pending.exception.take().unwrap(), &text("no such commit")));
    assert_eq!(slot, 0);
    assert_eq!(rt_load_global_versioned_ic(&mut table, "ns", "f@abc", true, Answer::Found, &mut slot, &mut pending), Pinned::Resolved(0));
    assert_eq!(slot, 1);
    assert_eq!(table, vec!["ns/f@abc".to_string()]);
    let mut other: usize = 0;
    assert_eq!(rt_load_global_versioned_ic(&mut table, "ns", "f@abc", true, Answer::Unasked, &mut other, &mut pending), Pinned::Resolved(0));
    assert_eq!(other, 1);
    assert_eq!(versioned_key("a", "b@c"), "a/b@c");
}

#[test]
fn a_dispatch_is_remembered_at_its_site() {
    let mut table: Vec<IcEntry> = Vec::new();
    let slot = ic_fill(&mut table, 0, IcEntry { callee: 1, generation: 4, tag: "Long".to_string(), impl_id: 9 });
    assert_eq!(ic_candidate(&table, slot, 1, 4).map(|e| e.impl_id), Some(9));
    assert!(ic_candidate(&table, slot, 1, 5).is_none());
    assert!(ic_candidate(&table, 0, 1, 4).is_none());
}

#[test]
fn counters_count_and_the_sentinel_stays() {
    let mut stats = JitStats { boxed_arith_calls: 0, guard_deopts: 0, kw_ic_fills: 0, proto_ic_hits: 0, proto_ic_misses: 0 };
    let mut sentinel: Option<u64> = None;
    assert_eq!(rt_deopt(&mut stats, &mut sentinel, 10), 10);
    assert_eq!(rt_deopt(&mut stats, &mut sentinel, 20), 10);
    assert_eq!(deopt_sentinel_addr(&mut sentinel, 30), 10);
    stats.bump(Event::ProtocolHit);
    assert_eq!(stats.guard_deopts, 2);
    assert!(snapshot(&stats).contains("2"));
    let mut hook = Hook { id: None };
    set_closure_escape_hook(&mut hook, 1);
    set_closure_escape_hook(&mut hook, 2);
    assert_eq!(hook.id, Some(1));
    assert!(shows(&rt_identical(1, 1), &Value::Bool(true)));
    assert!(shows(&rt_identical(1, 2), &Value::Bool(false)));
}

#[test]
fn small_integers_are_allocated_once() {
    assert!(matches!(box_or_intern_val(&long(0)), Place::Interned));
    assert!(matches!(box_or_intern_val(&long(1023)), Place::Interned));
    assert!(matches!(box_or_intern_val(&long(1024)), Place::Heap));
    assert!(matches!(box_or_intern_val(&long(-1)), Place::Heap));
}

#[test]
fn every_bridge_symbol_is_anchored() {
    let symbols = anchor_rt_symbols();
    assert_eq!(symbols.len(), 161);
    assert!(symbols.contains(&"rt_add"));
    assert!(symbols.contains(&"rt_async_set_result"));
}

#[test]
fn a_buffer_grows_and_keeps_what_it_holds() {
    let mut buf: Vec<u8> = vec![7];
    rt_scratch_ptr(&mut buf, 4);
    assert_eq!(buf, vec![7, 0, 0, 0]);
    rt_scratch_ptr(&mut buf, 2);
    assert_eq!(buf.len(), 4);
}

#[test]
fn core_functions_are_called_by_name() {
    let c = rt_reduce3(&text("f"), &long(0), &Value::Nil);
    assert_eq!(c.name, "reduce");
    assert_eq!(c.args.len(), 3);
    assert!(shows(&c.args[1], &long(0)));
    assert_eq!(rt_every(&Value::Nil, &Value::Nil).name, "every?");
    assert_eq!(rt_partition4(&long(1), &long(2), &long(3), &long(4)).args.len(), 4);
    assert_eq!(rt_concat(&longs(&[1, 2])).args.len(), 2);
}

#[test]
fn transients_change_in_place() {
    let t = rt_transient(&Value::Dict(Vec::new()), true);
    assert_eq!(t, Transient::Dict);
    assert_eq!(rt_transient(&Value::Dict(Vec::new()), false), Transient::Other);
    assert_eq!(rt_transient(&Value::SortedSet(Vec::new()), true), Transient::Other);
    assert!(matches!(rt_assoc_bang(t, &keyword("a"), &long(1)), Change::Entry(_, Value::Long(1))));
    assert!(matches!(rt_assoc_bang(Transient::Vector, &long(3), &long(1)), Change::At(3, Value::Long(1))));
    assert!(matches!(rt_assoc_bang(Transient::Vector, &text("a"), &long(1)), Change::Nothing));
    assert!(matches!(rt_conj_bang(t, &Value::Vector(longs(&[1, 2]))), Change::Entry(Value::Long(1), Value::Long(2))));
    assert!(matches!(rt_conj_bang(t, &Value::Vector(longs(&[1]))), Change::Nothing));
    assert!(matches!(rt_conj_bang(Transient::Vector, &long(1)), Change::Append(Value::Long(1))));
    assert!(matches!(rt_conj_bang(Transient::HashSet, &long(1)), Change::Member(Value::Long(1))));
    assert!(shows(&rt_persistent_bang(t, &Value::Nil, None), &Value::Nil));
    assert!(shows(&rt_persistent_bang(Transient::Other, &long(4), None), &long(4)));
}

#[test]
fn an_atom_changes_where_nothing_came_between() {
    let mut cell = long(1);
    assert_eq!(swap_args(&cell, &longs(&[5, 6])).len(), 3);
    assert!(matches!(rt_atom_swap(&mut cell, &long(0), Invoked::Value(long(9)), &same), Swapped::Again));
    assert!(shows(&cell, &long(1)));
    assert!(matches!(rt_atom_swap(&mut cell, &long(1), Invoked::Value(long(9)), &same), Swapped::Done(Value::Long(9))));
    assert!(shows(&cell, &long(9)));
    assert!(matches!(rt_atom_swap(&mut cell, &long(9), Invoked::Failed, &same), Swapped::Done(Value::Nil)));
    assert!(shows(&rt_atom_reset(&mut cell, &long(3)), &long(3)));
    assert!(shows(&cell, &long(3)));
}

#[test]
fn the_last_binding_of_a_variable_counts() {
    let pairs = vec![(Some(1), long(10)), (None, long(11)), (Some(2), long(12)), (Some(1), long(13))];
    let frame = rt_with_bindings(&pairs);
    assert_eq!(frame.len(), 2);
    assert!(frame.iter().any(|b| b.0 == 1 && shows(&b.1, &long(13))));
    assert!(frame.iter().any(|b| b.0 == 2 && shows(&b.1, &long(12))));
    assert_eq!(rt_set_bang(true, true), Assigned::Local);
    assert_eq!(rt_set_bang(true, false), Assigned::Root);
    assert_eq!(rt_set_bang(false, true), Assigned::Nowhere);
}

#[test]
fn the_first_hook_is_told_of_every_function() {
    let mut hook = Hook { id: None };
    assert_eq!(rt_make_fn("f", 1, 0, Vec::new(), &hook).1, None);
    set_closure_escape_hook(&mut hook, 4);
    set_closure_escape_hook(&mut hook, 5);
    assert_eq!(rt_make_fn("f", 1, 0, Vec::new(), &hook).1, Some(4));
    assert_eq!(rt_make_fn_variadic("f", 1, 0, Vec::new(), &hook).1, Some(4));
    let one = ArityEntry { fn_addr: 1, params: 1, variadic: false };
    assert_eq!(rt_make_fn_multi("f", vec![one], Vec::new(), &hook).1, Some(4));
}

#[test]
fn metadata_does_not_hide_the_kind_of_a_number() {
    let loose = |a: &Value, b: &Value| -> bool { same(a, b) || matches!((a, b), (Value::WithMeta(_, _), _)) };
    let wrapped = Value::WithMeta(Box::new(long(1)), Box::new(Value::Nil));
    assert!(shows(&rt_case_eq(&wrapped, &double(1.0), &loose), &Value::Bool(false)));
    assert!(shows(&rt_case_eq(&wrapped, &long(1), &loose), &Value::Bool(true)));
}

#[test]
fn a_walk_stops_where_a_call_throws() {
    let mut flags: Vec<bool> = Vec::new();
    assert!(note_flag(&mut flags, Invoked::Value(long(0))).is_none());
    assert!(note_flag(&mut flags, Invoked::Value(Value::Nil)).is_none());
    assert!(matches!(note_flag(&mut flags, Invoked::Thrown(text("x"))), Some(Invoked::Thrown(_))));
    assert_eq!(flags, vec![true, false]);
    let mut values: Vec<Value> = Vec::new();
    assert!(note_value(&mut values, Invoked::Value(long(4))).is_none());
    assert!(matches!(note_value(&mut values, Invoked::Failed), Some(Invoked::Failed)));
    assert_eq!(values.len(), 1);
}

#[test]
fn a_long_chain_is_walked_to_its_end() {
    let mut chain = Value::List(longs(&[7]));
    for n in 0..500 {
        chain = Value::LazySeq(Box::new(rt_alloc_cons(&long(n), &chain)));
    }
    let vs = realize_seq_elems(&chain).unwrap();
    assert_eq!(vs.len(), 501);
    assert!(shows(&vs[0], &long(499)));
    assert!(shows(&vs[500], &long(7)));
    assert_eq!(apply_args(&chain).len(), 501);
}
