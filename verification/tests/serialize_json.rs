use hurl::serialize_json::{format_char, JValue};

#[test]
pub fn test_format_char() {
    assert_eq!(format_char('a'), "a");
    assert_eq!(format_char('"'), "\\\"");
    assert_eq!(format_char('\n'), "\\n");
    assert_eq!(format_char('\x07'), "\\u0007")
}

#[test]
pub fn format_scalars() {
    assert_eq!(JValue::Null {}.format(), "null");
    assert_eq!(JValue::Number("1.0".to_string()).format(), "1.0");
    assert_eq!(JValue::String("hello".to_string()).format(), "\"hello\"");
    assert_eq!(JValue::Boolean(true).format(), "true");
}

#[test]
pub fn format_string() {
    assert_eq!(JValue::String("hello".to_string()).format(), "\"hello\"");
    assert_eq!(JValue::String("\"".to_string()).format(), r#""\"""#);
}

#[test]
pub fn format_list() {
    assert_eq!(
        JValue::List(vec![
            JValue::Number("1".to_string()),
            JValue::Number("2".to_string()),
            JValue::Number("3".to_string())
        ])
        .format(),
        "[1,2,3]"
    );
}

#[test]
pub fn format_object() {
    assert_eq!(
        JValue::Object(vec![
            ("name".to_string(), JValue::String("Bob".to_string())),
            ("age".to_string(), JValue::Number("20".to_string())),
        ])
        .format(),
        r#"{"name":"Bob","age":20}"#
    );
}

#[test]
pub fn format_char_escapes() {
    assert_eq!(format_char('\\'), "\\\\");
    assert_eq!(format_char('\x08'), "\\b");
    assert_eq!(format_char('\x0c'), "\\f");
    assert_eq!(format_char('\r'), "\\r");
    assert_eq!(format_char('\t'), "\\t");
    assert_eq!(format_char('\x1f'), "\\u001f");
    assert_eq!(format_char('\u{9f}'), "\\u009f");
    assert_eq!(format_char('é'), "é");
}

#[test]
pub fn format_nested() {
    let v = JValue::Object(vec![
        ("a".to_string(), JValue::List(vec![JValue::Boolean(false), JValue::Null])),
        ("b".to_string(), JValue::Object(vec![])),
        ("c\"".to_string(), JValue::List(vec![])),
    ]);
    assert_eq!(v.format(), r#"{"a":[false,null],"b":{},"c\"":[]}"#);
    assert_eq!(JValue::String("a\tb\u{1}".to_string()).format(), "\"a\\tb\\u0001\"");
}

#[test]
pub fn format_escaped_key() {
    let v = JValue::Object(vec![("a\"b".to_string(), JValue::Null)]);
    assert_eq!(v.format(), r#"{"a\"b":null}"#);
}
