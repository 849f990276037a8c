use trustworthiness_checker::values::{Value, VarName};

#[test]
fn values_give_back_what_they_hold() {
    assert_eq!(Value::Int(3).to_int(), Some(3));
    assert_eq!(Value::Bool(true).to_int(), None);
    assert_eq!(Value::Bool(false).to_bool(), Some(false));
    assert_eq!(Value::from_str("a").to_str(), Some("a".to_string()));
    assert_eq!(Value::Int(1).to_str(), None);
    assert_eq!(Value::Float(2.5f32.to_bits()).to_float_bits(), Some(2.5f32.to_bits()));
    assert!(Value::Unit.is_unit());
    assert!(!Value::Unknown.is_unit());
}

#[test]
fn conversions_into_values_and_names() {
    assert!(Value::from(7i64).equals(&Value::Int(7)));
    assert!(Value::from(true).equals(&Value::Bool(true)));
    assert!(Value::from("abc".to_string()).equals(&Value::from_str("abc")));
    let v: Value = 3i64.into();
    assert_eq!(v.to_int(), Some(3));
    assert!(VarName::from("x".to_string()).equals(&VarName::new("x")));
}
