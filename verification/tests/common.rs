use hurl::common::{SourceInfo, Value};

#[test]
fn test_is_scalar() {
    assert_eq!(Value::Integer(1).is_scalar(), true);
    assert_eq!(Value::List(vec![]).is_scalar(), false);
}

#[test]
fn test_value_text() {
    assert_eq!(Value::List(vec![Value::Integer(1), Value::Bool(true)]).to_string(), "[1,true]");
    assert_eq!(Value::Nodeset(3).is_scalar(), false);
    assert_eq!(Value::Null._type(), "unit");
    let s = SourceInfo::init(1, 2, 3, 4);
    assert_eq!(s.start.line, 1);
    assert_eq!(s.end.column, 4);
}
