use hurl::common::{SourceInfo, Value};
use hurl::json::{Expr, ListElement, ObjectElement, Template, TemplateElement, Value as JsonValue, Variable, Whitespace};
use hurl::runner::results::RunnerError;

fn hello_world_value() -> JsonValue {
    // "hello\u0020{{name}}!"
    JsonValue::String(Template {
        quotes: true,
        elements: vec![
            TemplateElement::String { value: "Hello ".to_string(), encoded: "Hello\\u0020".to_string() },
            TemplateElement::Expression(Expr {
                space0: Whitespace { value: "".to_string(), source_info: SourceInfo::init(1, 15, 1, 15) },
                variable: Variable { name: "name".to_string(), source_info: SourceInfo::init(1, 15, 1, 19) },
                space1: Whitespace { value: "".to_string(), source_info: SourceInfo::init(1, 19, 1, 19) },
            }),
            TemplateElement::String { value: "!".to_string(), encoded: "!".to_string() },
        ],
        source_info: SourceInfo::init(1, 2, 1, 22),
    })
}

fn person_value() -> JsonValue {
    JsonValue::Object {
        space0: "\n    ".to_string(),
        elements: vec![ObjectElement {
            space0: "".to_string(),
            name: "firstName".to_string(),
            space1: "".to_string(),
            space2: " ".to_string(),
            value: JsonValue::String(Template {
                quotes: false,
                elements: vec![TemplateElement::String { value: "John".to_string(), encoded: "John".to_string() }],
                source_info: SourceInfo::init(1, 1, 1, 1),
            }),
            space3: "\n".to_string(),
        }],
    }
}

fn bob() -> Vec<(String, Value)> {
    vec![("name".to_string(), Value::String("Bob".to_string()))]
}

#[test]
fn test_scalar_value() {
    let variables = bob();
    assert_eq!(JsonValue::Null {}.eval(&variables).unwrap(), "null".to_string());
    assert_eq!(JsonValue::Number("3.14".to_string()).eval(&variables).unwrap(), "3.14".to_string());
    assert_eq!(JsonValue::Boolean(false).eval(&variables).unwrap(), "false".to_string());
    assert_eq!(hello_world_value().eval(&variables).unwrap(), "\"Hello Bob!\"".to_string());
}

#[test]
fn test_error() {
    let variables = vec![];
    let error = hello_world_value().eval(&variables).err().unwrap();
    assert_eq!(error.source_info, SourceInfo::init(1, 15, 1, 19));
    assert_eq!(error.inner, RunnerError::TemplateVariableNotDefined { name: "name".to_string() });
}

#[test]
fn test_list_value() {
    let variables = bob();
    assert_eq!(JsonValue::List { space0: "".to_string(), elements: vec![] }.eval(&variables).unwrap(), "[]".to_string());

    assert_eq!(
        JsonValue::List {
            space0: "".to_string(),
            elements: vec![
                ListElement { space0: "".to_string(), value: JsonValue::Number("1".to_string()), space1: "".to_string() },
                ListElement { space0: " ".to_string(), value: JsonValue::Number("-2".to_string()), space1: "".to_string() },
                ListElement { space0: " ".to_string(), value: JsonValue::Number("3.0".to_string()), space1: "".to_string() },
            ],
        }
        .eval(&variables)
        .unwrap(),
        "[1, -2, 3.0]".to_string()
    );

    let template = Template {
        quotes: true,
        elements: vec![TemplateElement::String { encoded: "Hi".to_string(), value: "Hi".to_string() }],
        source_info: SourceInfo::init(0, 0, 0, 0),
    };
    assert_eq!(
        JsonValue::List {
            space0: "".to_string(),
            elements: vec![
                ListElement { space0: "".to_string(), value: JsonValue::String(template), space1: "".to_string() },
                ListElement { space0: " ".to_string(), value: hello_world_value(), space1: "".to_string() },
            ],
        }
        .eval(&variables)
        .unwrap(),
        "[\"Hi\", \"Hello Bob!\"]".to_string()
    );
}

#[test]
fn test_object_value() {
    let variables = vec![];
    assert_eq!(JsonValue::Object { space0: "".to_string(), elements: vec![] }.eval(&variables).unwrap(), "{}".to_string());
    assert_eq!(
        person_value().eval(&variables).unwrap(),
        r#"{
    "firstName": "John"
}"#
        .to_string()
    );
}

#[test]
fn test_nested_error_is_first() {
    let list = JsonValue::List {
        space0: "".to_string(),
        elements: vec![
            ListElement { space0: "".to_string(), value: JsonValue::Number("1".to_string()), space1: "".to_string() },
            ListElement { space0: "".to_string(), value: hello_world_value(), space1: "".to_string() },
        ],
    };
    let e = list.eval(&vec![("other".to_string(), Value::Integer(2))]).err().unwrap();
    assert_eq!(e.source_info, SourceInfo::init(1, 15, 1, 19));
    let v = vec![("name".to_string(), Value::Integer(2)), ("name".to_string(), Value::Bool(true))];
    assert_eq!(hello_world_value().eval(&v).unwrap(), "\"Hello 2!\"");
}
