use trustworthiness_checker::ast::{BoolBinOp, CompBinOp, NumericalBinOp, SBinOp, SExpr, StrBinOp};
use trustworthiness_checker::deps::{create_dependency_manager, DependencyKind};
use trustworthiness_checker::parser::{lola_expression, lola_specification};
use trustworthiness_checker::runtime::{push_entry, ConstraintBasedRuntime};
use trustworthiness_checker::solver::{binop_table, ConstraintStore, SolverError};
use trustworthiness_checker::topics::{topics, Topic};
use trustworthiness_checker::values::{Value, VarName};

fn int_of(r: Result<Value, SolverError>) -> i64 {
    match r {
        Ok(Value::Int(i)) => i,
        other => panic!("expected an integer, got {:?}", other),
    }
}

fn bool_of(r: Result<Value, SolverError>) -> bool {
    match r {
        Ok(Value::Bool(b)) => b,
        other => panic!("expected a boolean, got {:?}", other),
    }
}

fn str_of(r: Result<Value, SolverError>) -> String {
    match r {
        Ok(Value::Str(s)) => s,
        other => panic!("expected a string, got {:?}", other),
    }
}

fn err_of(r: Result<Value, SolverError>) -> SolverError {
    match r {
        Err(e) => e,
        other => panic!("expected an error, got {:?}", other),
    }
}

const ADD: SBinOp = SBinOp::NOp(NumericalBinOp::Add);
const DIV: SBinOp = SBinOp::NOp(NumericalBinOp::Div);
const MOD: SBinOp = SBinOp::NOp(NumericalBinOp::Mod);

#[test]
fn integer_division_rounds_toward_zero() {
    assert_eq!(int_of(binop_table(&Value::Int(7), &Value::Int(2), DIV)), 3);
    assert_eq!(int_of(binop_table(&Value::Int(-7), &Value::Int(2), DIV)), -3);
    assert_eq!(int_of(binop_table(&Value::Int(7), &Value::Int(-2), DIV)), -3);
    assert_eq!(int_of(binop_table(&Value::Int(-7), &Value::Int(2), MOD)), -1);
    assert_eq!(int_of(binop_table(&Value::Int(7), &Value::Int(-2), MOD)), 1);
}

#[test]
fn string_operators() {
    let a = Value::from_str("ab");
    let c = Value::from_str("c");
    assert_eq!(str_of(binop_table(&a, &c, SBinOp::SOp(StrBinOp::Concat))), "abc");
    assert!(bool_of(binop_table(&a, &c, SBinOp::COp(CompBinOp::Le))));
    assert!(!bool_of(binop_table(&a, &c, SBinOp::COp(CompBinOp::Eq))));
    assert!(bool_of(binop_table(&a, &a, SBinOp::COp(CompBinOp::Eq))));
}

#[test]
fn operator_on_wrong_types_is_a_type_mismatch() {
    let r = binop_table(&Value::Int(1), &Value::Bool(true), ADD);
    assert_eq!(err_of(r), SolverError::TypeMismatch);
    let r = binop_table(&Value::Int(1), &Value::Int(2), SBinOp::BOp(BoolBinOp::And));
    assert_eq!(err_of(r), SolverError::TypeMismatch);
}

#[test]
fn division_by_zero_is_reported() {
    assert_eq!(err_of(binop_table(&Value::Int(1), &Value::Int(0), DIV)), SolverError::DivisionByZero);
    assert_eq!(err_of(binop_table(&Value::Int(1), &Value::Int(0), MOD)), SolverError::DivisionByZero);
}

#[test]
fn integer_overflow_is_reported() {
    assert_eq!(err_of(binop_table(&Value::Int(i64::MAX), &Value::Int(1), ADD)), SolverError::Overflow);
    assert_eq!(err_of(binop_table(&Value::Int(i64::MIN), &Value::Int(-1), DIV)), SolverError::Overflow);
    assert_eq!(err_of(binop_table(&Value::Int(i64::MIN), &Value::Int(-1), MOD)), SolverError::Overflow);
}

#[test]
fn float_arithmetic_is_reported() {
    let f = Value::Float(1.5f32.to_bits());
    assert_eq!(err_of(binop_table(&f, &Value::Int(1), ADD)), SolverError::FloatOperation);
    assert_eq!(err_of(binop_table(&Value::Int(1), &f, ADD)), SolverError::FloatOperation);
}

#[test]
fn commutative_operators_on_concrete_values() {
    let pairs = [
        (Value::Int(3), Value::Int(4), SBinOp::NOp(NumericalBinOp::Add)),
        (Value::Int(3), Value::Int(4), SBinOp::NOp(NumericalBinOp::Mul)),
        (Value::Bool(true), Value::Bool(false), SBinOp::BOp(BoolBinOp::And)),
        (Value::Bool(true), Value::Bool(false), SBinOp::BOp(BoolBinOp::Or)),
        (Value::from_str("x"), Value::from_str("y"), SBinOp::COp(CompBinOp::Eq)),
    ];
    for (a, b, op) in pairs.iter() {
        let ab = binop_table(a, b, *op).unwrap();
        let ba = binop_table(b, a, *op).unwrap();
        assert!(ab.equals(&ba));
    }
}

#[test]
fn string_order_is_strict_on_concrete_values() {
    let a = Value::from_str("apple");
    let b = Value::from_str("banana");
    let lt = SBinOp::COp(CompBinOp::Lt);
    assert!(bool_of(binop_table(&a, &b, lt)));
    assert!(!bool_of(binop_table(&b, &a, lt)));
    assert!(!bool_of(binop_table(&a, &a, lt)));
}

#[test]
fn read_after_write_on_concrete_streams() {
    let x = VarName::new("x");
    let y = VarName::new("y");
    let mut m: Vec<(VarName, Vec<(usize, Value)>)> = Vec::new();
    push_entry(&mut m, &x, 0, Value::Int(10));
    push_entry(&mut m, &y, 0, Value::Int(20));
    push_entry(&mut m, &x, 1, Value::Int(11));
    let r = ConstraintStore::get_value_from_stream(&x, &1, &m).unwrap();
    assert!(r.equals(&Value::Int(11)));
    let r = ConstraintStore::get_value_from_stream(&x, &0, &m).unwrap();
    assert!(r.equals(&Value::Int(10)));
    let r = ConstraintStore::get_value_from_stream(&y, &0, &m).unwrap();
    assert!(r.equals(&Value::Int(20)));
    assert!(ConstraintStore::get_value_from_stream(&y, &1, &m).is_none());
}

fn runtime(spec_text: &str, kind: DependencyKind) -> ConstraintBasedRuntime {
    let (spec, _) = lola_specification(spec_text);
    let deps = create_dependency_manager(kind, &spec);
    let mut rt = ConstraintBasedRuntime::new(deps);
    rt.store_from_spec(spec);
    rt
}

fn input(name: &str, v: Value) -> Vec<(VarName, Value)> {
    vec![(VarName::new(name), v)]
}

#[test]
fn empty_manager_keeps_every_value() {
    let mut rt = runtime("in x\nout z\nz = x", DependencyKind::Empty);
    for i in 0..5 {
        rt.step(&input("x", Value::Int(i))).unwrap();
        rt.cleanup();
    }
    for i in 0..5usize {
        let v = rt.store.get_from_input_streams(&VarName::new("x"), &i).unwrap();
        assert!(v.equals(&Value::Int(i as i64)));
    }
}

#[test]
fn dependency_graph_keeps_what_past_reads_need() {
    let mut rt = runtime("in x\nout z\nz = x[-1, 0]", DependencyKind::DepGraph);
    for i in 0..5 {
        rt.step(&input("x", Value::Int(i))).unwrap();
        rt.cleanup();
    }
    let x = VarName::new("x");
    // The current time is 5: the value one step back is still there.
    assert!(rt.store.get_from_input_streams(&x, &4).unwrap().equals(&Value::Int(4)));
    // Values older than one step back are gone.
    assert!(rt.store.get_from_input_streams(&x, &0).is_none());
}

#[test]
fn cleanup_twice_is_cleanup_once() {
    let mut rt = runtime("in x\nout z\nz = x[-2, 0]", DependencyKind::DepGraph);
    for i in 0..6 {
        rt.step(&input("x", Value::Int(i))).unwrap();
    }
    rt.cleanup();
    let x = VarName::new("x");
    let once: Vec<bool> = (0..6usize).map(|t| rt.store.get_from_input_streams(&x, &t).is_some()).collect();
    rt.cleanup();
    let twice: Vec<bool> = (0..6usize).map(|t| rt.store.get_from_input_streams(&x, &t).is_some()).collect();
    assert_eq!(once, twice);
    assert_eq!(once, vec![false, false, false, false, true, true]);
}

#[test]
fn adding_then_removing_a_dependency_changes_nothing() {
    let (spec, _) = lola_specification("in x\nout z\nz = x[-1, 0]");
    let mut deps = create_dependency_manager(DependencyKind::DepGraph, &spec);
    let before = deps.longest_time_dependency(&VarName::new("x"));
    let (e, _) = lola_expression("x[-3, 0]").unwrap();
    deps.add_dependency(&VarName::new("z"), &e);
    assert_eq!(deps.longest_time_dependency(&VarName::new("x")), Some(3));
    deps.remove_dependency(&VarName::new("z"), &e);
    assert_eq!(deps.longest_time_dependency(&VarName::new("x")), before);
    assert_eq!(before, Some(1));
}

#[test]
fn unsupported_expression_is_reported() {
    let mut rt = runtime("in x\nout z\nz = !x", DependencyKind::Empty);
    assert_eq!(rt.step(&input("x", Value::Bool(true))), Err(SolverError::Unsupported));
}

#[test]
fn condition_that_is_not_a_boolean_is_a_type_mismatch() {
    let mut rt = runtime("in x\nout z\nz = if x then 1 else 2", DependencyKind::Empty);
    assert_eq!(rt.step(&input("x", Value::Int(3))), Err(SolverError::TypeMismatch));
}

#[test]
fn deferred_integer_is_an_invalid_property() {
    let mut rt = runtime("in x\nout z\nz = defer(x)", DependencyKind::Empty);
    assert_eq!(rt.step(&input("x", Value::Int(1))), Err(SolverError::InvalidDeferProperty));
}

#[test]
fn deferred_text_that_does_not_parse_is_reported() {
    let mut rt = runtime("in x\nout z\nz = defer(x)", DependencyKind::Empty);
    assert_eq!(rt.step(&input("x", Value::from_str("&&"))), Err(SolverError::DeferParse));
}

#[test]
fn long_chain_of_deferred_properties_resolves() {
    let n = 100;
    let mut text = String::new();
    for k in 0..n {
        text.push_str(&format!("in a{}\n", k));
    }
    text.push_str("out z\nz = defer(a0)");
    let mut rt = runtime(&text, DependencyKind::Empty);
    let mut inputs: Vec<(VarName, Value)> = Vec::new();
    for k in 0..n {
        let prop = if k + 1 < n { format!("defer(a{})", k + 1) } else { "5".to_string() };
        inputs.push((VarName::new(&format!("a{}", k)), Value::from_str(&prop)));
    }
    rt.step(&inputs).unwrap();
    let z = rt.store.get_from_outputs_resolved(&VarName::new("z"), &0).unwrap();
    assert!(z.equals(&Value::Int(5)));
}

#[test]
fn every_topic_is_found_by_both_names() {
    let all = topics();
    assert_eq!(all.len(), 6);
    for t in all.iter() {
        let by_ros: Topic = Topic::ros_topic(t.ros_name).unwrap();
        assert_eq!(by_ros.mqtt_name, t.mqtt_name);
        let by_mqtt: Topic = Topic::mqtt_topic(t.mqtt_name).unwrap();
        assert_eq!(by_mqtt.ros_name, t.ros_name);
    }
    assert_eq!(Topic::ros_topic("/odom").unwrap().mqtt_name, "Odometry");
    assert!(Topic::ros_topic("/nowhere").is_none());
    assert!(Topic::mqtt_topic("/nowhere").is_none());
}

#[test]
fn names_are_their_texts() {
    assert!(VarName::new("abc").equals(&VarName::new("abc")));
    assert!(!VarName::new("abc").equals(&VarName::new("abd")));
    assert_eq!(VarName::new("abc").name(), "abc");
}

#[test]
fn expressions_compare_by_structure() {
    let (a, _) = lola_expression("x + 1").unwrap();
    let (b, _) = lola_expression("x+1").unwrap();
    let (c, _) = lola_expression("1 + x").unwrap();
    assert!(a.equals(&b));
    assert!(!a.equals(&c));
    assert!(matches!(a, SExpr::BinOp(_, _, SBinOp::NOp(NumericalBinOp::Add))));
}

#[test]
fn a_second_write_at_the_same_time_does_not_change_the_read() {
    let x = VarName::new("x");
    let mut m: Vec<(VarName, Vec<(usize, Value)>)> = Vec::new();
    push_entry(&mut m, &x, 0, Value::Int(10));
    push_entry(&mut m, &x, 0, Value::Int(99));
    let r = ConstraintStore::get_value_from_stream(&x, &0, &m).unwrap();
    assert!(r.equals(&Value::Int(10)));
}

#[test]
fn resolved_outputs_stay_resolved_across_steps() {
    let mut rt = runtime("in x\nout z\nz = x + 1", DependencyKind::Empty);
    rt.step(&input("x", Value::Int(1))).unwrap();
    let z = VarName::new("z");
    assert!(rt.store.get_from_outputs_resolved(&z, &0).unwrap().equals(&Value::Int(2)));
    rt.step(&input("x", Value::Int(5))).unwrap();
    assert!(rt.store.get_from_outputs_resolved(&z, &0).unwrap().equals(&Value::Int(2)));
    assert!(rt.store.get_from_outputs_resolved(&z, &1).unwrap().equals(&Value::Int(6)));
}

#[test]
fn receiving_inputs_records_one_unresolved_entry_per_output() {
    let mut rt = runtime("in x\nout y\nout z\ny = x + 1\nz = 2", DependencyKind::Empty);
    rt.receive_inputs(&input("x", Value::Int(1))).unwrap();
    for name in ["y", "z"] {
        let n = VarName::new(name);
        assert!(rt.store.get_from_outputs_unresolved(&n, &0).is_some());
        assert!(rt.store.get_from_outputs_unresolved(&n, &1).is_none());
        let stream = rt.store.outputs_unresolved.iter().find(|(m, _)| m.equals(&n)).unwrap();
        assert_eq!(stream.1.len(), 1);
    }
    // The expressions are at a fixed point: receiving again changes none of them.
    let before: Vec<SExpr> = rt.store.output_exprs.iter().map(|(_, e)| e.deep_clone()).collect();
    rt.receive_inputs(&Vec::new()).unwrap();
    for (i, (_, e)) in rt.store.output_exprs.iter().enumerate() {
        assert!(e.equals(&before[i]));
    }
}
