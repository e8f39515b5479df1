use hurl::common::Value;
use hurl::runner::predicate::{assert_include, assert_values_equal, copy_value, value_eq};

#[test]
fn test_assert_values_equal_same_kinds() {
    let r = assert_values_equal(Value::Integer(1), Value::Integer(1)).unwrap();
    assert!(r.success);
    assert!(!r.type_mismatch);
    assert_eq!(r.actual, "int <1>");
    assert_eq!(r.expected, "int <1>");

    let r = assert_values_equal(Value::String("a".to_string()), Value::String("b".to_string())).unwrap();
    assert!(!r.success);
    assert!(!r.type_mismatch);
    assert_eq!(r.actual, "string <a>");
    assert_eq!(r.expected, "string <b>");

    assert!(assert_values_equal(Value::Null, Value::Null).unwrap().success);
    assert!(assert_values_equal(Value::Bool(true), Value::Bool(true)).unwrap().success);
    assert!(assert_values_equal(Value::Float(1, 5), Value::Float(1, 5)).unwrap().success);
    assert!(assert_values_equal(Value::Bytes(vec![1, 2]), Value::Bytes(vec![1, 2])).unwrap().success);
}

#[test]
fn test_assert_values_equal_float_and_integer() {
    assert!(assert_values_equal(Value::Float(2, 0), Value::Integer(2)).unwrap().success);
    let r = assert_values_equal(Value::Float(2, 1), Value::Integer(2)).unwrap();
    assert!(!r.success);
    assert!(!r.type_mismatch);
    let r = assert_values_equal(Value::Integer(2), Value::Float(2, 0)).unwrap();
    assert!(!r.success);
    assert!(r.type_mismatch);
}

#[test]
fn test_assert_values_equal_type_mismatch() {
    let r = assert_values_equal(Value::Integer(1), Value::String("1".to_string())).unwrap();
    assert!(!r.success);
    assert!(r.type_mismatch);
    assert_eq!(r.expected, "string <1>");
    let r = assert_values_equal(Value::Nodeset(1), Value::Nodeset(1)).unwrap();
    assert!(r.type_mismatch);
}

#[test]
fn test_assert_values_equal_lists() {
    let a = Value::List(vec![Value::Integer(1), Value::Object(vec![("k".to_string(), Value::Null)])]);
    let b = Value::List(vec![Value::Integer(1), Value::Object(vec![("k".to_string(), Value::Null)])]);
    let r = assert_values_equal(a, b).unwrap();
    assert!(r.success);
    assert_eq!(r.actual, "[int <1>, object]");
    let a = Value::List(vec![Value::Integer(1)]);
    let b = Value::List(vec![Value::Integer(1), Value::Integer(2)]);
    assert!(!assert_values_equal(a, b).unwrap().success);
}

#[test]
fn test_value_eq() {
    assert!(value_eq(&Value::String("x".to_string()), &Value::String("x".to_string())));
    assert!(!value_eq(&Value::Integer(1), &Value::Float(1, 0)));
    assert!(value_eq(&Value::Unit, &Value::Unit));
    assert!(!value_eq(
        &Value::Object(vec![("a".to_string(), Value::Integer(1))]),
        &Value::Object(vec![("b".to_string(), Value::Integer(1))])
    ));
}

#[test]
fn test_assert_include() {
    let list = Value::List(vec![Value::Integer(1), Value::Float(2, 0)]);
    let r = assert_include(list, Value::Integer(2)).unwrap();
    assert!(r.success);
    assert!(!r.type_mismatch);
    assert_eq!(r.expected, "includes int <2>");
    assert_eq!(r.actual, "[int <1>, float <2.0>]");

    let r = assert_include(Value::List(vec![Value::Integer(1)]), Value::Integer(3)).unwrap();
    assert!(!r.success);
    assert!(!r.type_mismatch);

    let r = assert_include(Value::Integer(1), Value::Integer(1)).unwrap();
    assert!(!r.success);
    assert!(r.type_mismatch);
    assert_eq!(r.actual, "int <1>");
}

#[test]
fn predicate_test_invalid_xpath() {}

#[test]
fn test_copy_value() {
    let v = Value::List(vec![
        Value::Bytes(vec![1, 2, 3]),
        Value::Object(vec![("k".to_string(), Value::String("v".to_string()))]),
        Value::Float(1, 25),
    ]);
    let c = copy_value(&v);
    assert_eq!(c, v);
    assert!(value_eq(&c, &v));
}
