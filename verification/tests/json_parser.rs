use hurl::common::{Pos, SourceInfo};
use hurl::json::{
    Expr, ListElement, ObjectElement, Template, TemplateElement, Value, Variable, Whitespace,
};
use hurl::json_parser::{
    any_char, boolean_value, escape_char, hex_value, key, list_element, list_value, null_value,
    number_value, object_element, object_value, parse, string_value, unicode, whitespace,
};
use hurl::parse_error::ParseError;
use hurl::reader::Reader;

fn hello_world_value() -> Value {
    // "hello\u0020{{name}}!"
    Value::String(Template {
        quotes: true,
        elements: vec![
            TemplateElement::String {
                value: "Hello ".to_string(),
                encoded: "Hello\\u0020".to_string(),
            },
            TemplateElement::Expression(Expr {
                space0: Whitespace {
                    value: "".to_string(),
                    source_info: SourceInfo::init(1, 15, 1, 15),
                },
                variable: Variable {
                    name: "name".to_string(),
                    source_info: SourceInfo::init(1, 15, 1, 19),
                },
                space1: Whitespace {
                    value: "".to_string(),
                    source_info: SourceInfo::init(1, 19, 1, 19),
                },
            }),
            TemplateElement::String {
                value: "!".to_string(),
                encoded: "!".to_string(),
            },
        ],
        source_info: SourceInfo::init(1, 2, 1, 22),
    })
}

#[test]
fn test_parse_error() {
    let mut reader = Reader::init("{ \"a\":\n}");
    let error = parse(&mut reader).err().unwrap();
    assert_eq!(error.pos, Pos { line: 1, column: 7 });
    assert_eq!(error.inner, ParseError::Json {});
    assert_eq!(error.recoverable, false);

    let mut reader = Reader::init("[0,1,]");
    let error = parse(&mut reader).err().unwrap();
    assert_eq!(error.pos, Pos { line: 1, column: 6 });
    assert_eq!(error.inner, ParseError::Json {});
    assert_eq!(error.recoverable, false);
}

#[test]
fn test_null_value() {
    let mut reader = Reader::init("null");
    assert_eq!(null_value(&mut reader).unwrap(), Value::Null {});
    assert_eq!(reader.state.cursor, 4);

    let mut reader = Reader::init("true");
    let error = null_value(&mut reader).err().unwrap();
    assert_eq!(error.pos, Pos { line: 1, column: 1 });
    assert_eq!(
        error.inner,
        ParseError::Expecting {
            value: "null".to_string()
        }
    );
    assert_eq!(error.recoverable, true);
}

#[test]
fn test_boolean_value() {
    let mut reader = Reader::init("true");
    assert_eq!(
        boolean_value(&mut reader).unwrap(),
        Value::Boolean(true)
    );
    assert_eq!(reader.state.cursor, 4);

    let mut reader = Reader::init("1");
    let error = boolean_value(&mut reader).err().unwrap();
    assert_eq!(error.pos, Pos { line: 1, column: 1 });
    assert_eq!(
        error.inner,
        ParseError::Expecting {
            value: "true|false".to_string()
        }
    );
    assert_eq!(error.recoverable, true);
}

#[test]
fn test_string_value() {
    let mut reader = Reader::init("\"\"");
    assert_eq!(
        string_value(&mut reader).unwrap(),
        Value::String(Template {
            quotes: true,
            elements: vec![],
            source_info: SourceInfo::init(1, 2, 1, 2),
        })
    );
    assert_eq!(reader.state.cursor, 2);

    let mut reader = Reader::init("\"Hello\\u0020{{name}}!\"");
    assert_eq!(
        string_value(&mut reader).unwrap(),
        hello_world_value()
    );
    assert_eq!(reader.state.cursor, 22);

    let mut reader = Reader::init("\"{}\"");
    assert_eq!(
        string_value(&mut reader).unwrap(),
        Value::String(Template {
            quotes: true,
            elements: vec![TemplateElement::String {
                value: "{}".to_string(),
                encoded: "{}".to_string(),
            }],
            source_info: SourceInfo::init(1, 2, 1, 4),
        })
    );
    assert_eq!(reader.state.cursor, 4);
}

#[test]
fn test_string_value_error() {
    let mut reader = Reader::init("1");
    let error = string_value(&mut reader).err().unwrap();
    assert_eq!(error.pos, Pos { line: 1, column: 1 });
    assert_eq!(
        error.inner,
        ParseError::Expecting {
            value: "\"".to_string()
        }
    );
    assert_eq!(error.recoverable, true);

    let mut reader = Reader::init("\"1");
    let error = string_value(&mut reader).err().unwrap();
    assert_eq!(error.pos, Pos { line: 1, column: 3 });
    assert_eq!(
        error.inner,
        ParseError::Expecting {
            value: "\"".to_string()
        }
    );
    assert_eq!(error.recoverable, false);

    let mut reader = Reader::init("\"{{x\"");
    let error = string_value(&mut reader).err().unwrap();
    assert_eq!(error.pos, Pos { line: 1, column: 5 });
    assert_eq!(
        error.inner,
        ParseError::Expecting {
            value: "}}".to_string()
        }
    );
    assert_eq!(error.recoverable, false);
}

#[test]
fn test_any_char() {
    let mut reader = Reader::init("a");
    assert_eq!(
        any_char(&mut reader).unwrap(),
        ('a', "a".to_string(), Pos { line: 1, column: 1 })
    );
    assert_eq!(reader.state.cursor, 1);

    let mut reader = Reader::init(" ");
    assert_eq!(
        any_char(&mut reader).unwrap(),
        (' ', " ".to_string(), Pos { line: 1, column: 1 })
    );
    assert_eq!(reader.state.cursor, 1);

    let mut reader = Reader::init("\\u0020 ");
    assert_eq!(
        any_char(&mut reader).unwrap(),
        (' ', "\\u0020".to_string(), Pos { line: 1, column: 1 })
    );
    assert_eq!(reader.state.cursor, 6);

    let mut reader = Reader::init("\\t");
    assert_eq!(
        any_char(&mut reader).unwrap(),
        ('\t', "\\t".to_string(), Pos { line: 1, column: 1 })
    );
    assert_eq!(reader.state.cursor, 2);

    let mut reader = Reader::init("#");
    assert_eq!(
        any_char(&mut reader).unwrap(),
        ('#', "#".to_string(), Pos { line: 1, column: 1 })
    );
    assert_eq!(reader.state.cursor, 1);
}

#[test]
fn test_any_char_error() {
    let mut reader = Reader::init("");
    let error = any_char(&mut reader).err().unwrap();
    assert_eq!(error.pos, Pos { line: 1, column: 1 });
    assert_eq!(error.recoverable, true);

    let mut reader = Reader::init("\t");
    let error = any_char(&mut reader).err().unwrap();
    assert_eq!(error.pos, Pos { line: 1, column: 1 });
    assert_eq!(error.recoverable, true);
}

#[test]
fn test_escape_char() {
    let mut reader = Reader::init("\\n");
    assert_eq!(escape_char(&mut reader).unwrap(), '\n');
    assert_eq!(reader.state.cursor, 2);

    let mut reader = Reader::init("\\u000a");
    assert_eq!(escape_char(&mut reader).unwrap(), '\n');
    assert_eq!(reader.state.cursor, 6);

    let mut reader = Reader::init("x");
    let error = escape_char(&mut reader).err().unwrap();
    assert_eq!(error.pos, Pos { line: 1, column: 1 });
    assert_eq!(
        error.inner,
        ParseError::Expecting {
            value: "\\".to_string()
        }
    );
    assert_eq!(error.recoverable, true);
    assert_eq!(reader.state.cursor, 0);
}

#[test]
fn test_unicode() {
    let mut reader = Reader::init("000a");
    assert_eq!(unicode(&mut reader).unwrap(), '\n');
    assert_eq!(reader.state.cursor, 4);
}

#[test]
fn test_hex_value() {
    let mut reader = Reader::init("0020x");
    assert_eq!(hex_value(&mut reader).unwrap(), 32);

    let mut reader = Reader::init("x");
    let error = hex_value(&mut reader).err().unwrap();
    assert_eq!(error.pos, Pos { line: 1, column: 1 });
    assert_eq!(error.inner, ParseError::HexDigit);
    assert_eq!(error.recoverable, false);
}

#[test]
fn test_number_value() {
    let mut reader = Reader::init("100");
    assert_eq!(
        number_value(&mut reader).unwrap(),
        Value::Number("100".to_string())
    );
    assert_eq!(reader.state.cursor, 3);

    let mut reader = Reader::init("1.333");
    assert_eq!(
        number_value(&mut reader).unwrap(),
        Value::Number("1.333".to_string())
    );
    assert_eq!(reader.state.cursor, 5);

    let mut reader = Reader::init("-1");
    assert_eq!(
        number_value(&mut reader).unwrap(),
        Value::Number("-1".to_string())
    );
    assert_eq!(reader.state.cursor, 2);

    let mut reader = Reader::init("00");
    assert_eq!(
        number_value(&mut reader).unwrap(),
        Value::Number("0".to_string())
    );
    assert_eq!(reader.state.cursor, 1);

    let mut reader = Reader::init("1e0");
    assert_eq!(
        number_value(&mut reader).unwrap(),
        Value::Number("1e0".to_string())
    );
    assert_eq!(reader.state.cursor, 3);

    let mut reader = Reader::init("1e005");
    assert_eq!(
        number_value(&mut reader).unwrap(),
        Value::Number("1e005".to_string())
    );
    assert_eq!(reader.state.cursor, 5);

    let mut reader = Reader::init("1e-005");
    assert_eq!(
        number_value(&mut reader).unwrap(),
        Value::Number("1e-005".to_string())
    );
    assert_eq!(reader.state.cursor, 6);
}

#[test]
fn test_number_value_error() {
    let mut reader = Reader::init("true");
    let error = number_value(&mut reader).err().unwrap();
    assert_eq!(error.pos, Pos { line: 1, column: 1 });
    assert_eq!(
        error.inner,
        ParseError::Expecting {
            value: "number".to_string()
        }
    );
    assert_eq!(error.recoverable, true);

    let mut reader = Reader::init("1.x");
    let error = number_value(&mut reader).err().unwrap();
    assert_eq!(error.pos, Pos { line: 1, column: 3 });
    assert_eq!(
        error.inner,
        ParseError::Expecting {
            value: "digits".to_string()
        }
    );
    assert_eq!(error.recoverable, false);
}

#[test]
fn json_test_list_value() {
    let mut reader = Reader::init("[]");
    assert_eq!(
        list_value(&mut reader).unwrap(),
        Value::List {
            space0: "".to_string(),
            elements: vec![]
        }
    );
    assert_eq!(reader.state.cursor, 2);

    let mut reader = Reader::init("[ ]");
    assert_eq!(
        list_value(&mut reader).unwrap(),
        Value::List {
            space0: " ".to_string(),
            elements: vec![]
        }
    );
    assert_eq!(reader.state.cursor, 3);

    let mut reader = Reader::init("[true]");
    assert_eq!(
        list_value(&mut reader).unwrap(),
        Value::List {
            space0: "".to_string(),
            elements: vec![ListElement {
                space0: "".to_string(),
                value: Value::Boolean(true),
                space1: "".to_string(),
            }],
        }
    );
    assert_eq!(reader.state.cursor, 6);
}

#[test]
fn test_list_error() {
    let mut reader = Reader::init("true");
    let error = list_value(&mut reader).err().unwrap();
    assert_eq!(error.pos, Pos { line: 1, column: 1 });
    assert_eq!(
        error.inner,
        ParseError::Expecting {
            value: "[".to_string()
        }
    );
    assert_eq!(error.recoverable, true);

    let mut reader = Reader::init("[1, true]");
    let error = list_value(&mut reader).err().unwrap();
    assert_eq!(error.pos, Pos { line: 1, column: 5 });
    assert_eq!(
        error.inner,
        ParseError::Expecting {
            value: "number".to_string()
        }
    );
    assert_eq!(error.recoverable, false);

    let mut reader = Reader::init("[1, 2,]");
    let error = list_value(&mut reader).err().unwrap();
    assert_eq!(error.pos, Pos { line: 1, column: 7 });
    assert_eq!(error.inner, ParseError::Json {});
    assert_eq!(error.recoverable, false);
}

#[test]
fn test_list_element() {
    let mut reader = Reader::init("true");
    assert_eq!(
        list_element(None, &mut reader).unwrap(),
        ListElement {
            space0: "".to_string(),
            value: Value::Boolean(true),
            space1: "".to_string(),
        }
    );
    assert_eq!(reader.state.cursor, 4);
}

#[test]
fn test_list_element_error() {
    let mut reader = Reader::init("true");
    let error = list_element(Some("number".to_string()), &mut reader)
        .err()
        .unwrap();
    assert_eq!(error.pos, Pos { line: 1, column: 1 });
    assert_eq!(
        error.inner,
        ParseError::Expecting {
            value: "number".to_string()
        }
    );
    assert_eq!(error.recoverable, false);

    let mut reader = Reader::init("\n]");
    let error = list_element(Some("number".to_string()), &mut reader)
        .err()
        .unwrap();
    assert_eq!(error.pos, Pos { line: 1, column: 1 });
    assert_eq!(error.inner, ParseError::Json {});
    assert_eq!(error.recoverable, false);
}

#[test]
fn json_test_object_value() {
    let mut reader = Reader::init("{}");
    assert_eq!(
        object_value(&mut reader).unwrap(),
        Value::Object {
            space0: "".to_string(),
            elements: vec![]
        }
    );
    assert_eq!(reader.state.cursor, 2);

    let mut reader = Reader::init("{ }");
    assert_eq!(
        object_value(&mut reader).unwrap(),
        Value::Object {
            space0: " ".to_string(),
            elements: vec![]
        }
    );
    assert_eq!(reader.state.cursor, 3);

    let mut reader = Reader::init("{\n  \"a\": true\n}");
    assert_eq!(
        object_value(&mut reader).unwrap(),
        Value::Object {
            space0: "\n  ".to_string(),
            elements: vec![ObjectElement {
                space0: "".to_string(),
                name: "a".to_string(),
                space1: "".to_string(),
                space2: " ".to_string(),
                value: Value::Boolean(true),
                space3: "\n".to_string(),
            }],
        }
    );
    assert_eq!(reader.state.cursor, 15);

    let mut reader = Reader::init("true");
    let error = object_value(&mut reader).err().unwrap();
    assert_eq!(error.pos, Pos { line: 1, column: 1 });
    assert_eq!(
        error.inner,
        ParseError::Expecting {
            value: "{".to_string()
        }
    );
    assert_eq!(error.recoverable, true);
}

#[test]
fn test_object_error() {
    let mut reader = Reader::init("{ \"a\":\n}");
    let error = object_value(&mut reader).err().unwrap();
    assert_eq!(error.pos, Pos { line: 1, column: 7 });
    assert_eq!(error.inner, ParseError::Json {});
    assert_eq!(error.recoverable, false);
}

#[test]
fn test_object_element() {
    let mut reader = Reader::init("\"a\": true");
    assert_eq!(
        object_element(&mut reader).unwrap(),
        ObjectElement {
            space0: "".to_string(),
            name: "a".to_string(),
            space1: "".to_string(),
            space2: " ".to_string(),
            value: Value::Boolean(true),
            space3: "".to_string(),
        }
    );
    assert_eq!(reader.state.cursor, 9);
}

#[test]
fn test_object_element_error() {
    let mut reader = Reader::init(":");
    let error = object_element(&mut reader).err().unwrap();
    assert_eq!(error.pos, Pos { line: 1, column: 1 });
    assert_eq!(
        error.inner,
        ParseError::Expecting {
            value: "\"".to_string()
        }
    );
    assert_eq!(error.recoverable, false);

    let mut reader = Reader::init("\"name\":\n");
    let error = object_element(&mut reader).err().unwrap();
    assert_eq!(error.pos, Pos { line: 1, column: 8 });
    assert_eq!(error.inner, ParseError::Json {});
    assert_eq!(error.recoverable, false);
}

#[test]
fn test_key() {
    let mut reader = Reader::init("name");
    assert_eq!(key(&mut reader).unwrap(), "name".to_string());
    assert_eq!(reader.state.cursor, 4);

    let mut reader = Reader::init("@timestamp");
    assert_eq!(key(&mut reader).unwrap(), "@timestamp".to_string());
    assert_eq!(reader.state.cursor, 10);

    let mut reader = Reader::init("data.q_client-dns");
    assert_eq!(key(&mut reader).unwrap(), "data.q_client-dns".to_string());
    assert_eq!(reader.state.cursor, 17);
}

#[test]
fn test_whitespace() {
    let mut reader = Reader::init("");
    assert_eq!(whitespace(&mut reader), "".to_string());
    assert_eq!(reader.state.cursor, 0);

    let mut reader = Reader::init(" x");
    assert_eq!(whitespace(&mut reader), " ".to_string());
    assert_eq!(reader.state.cursor, 1);

    let mut reader = Reader::init("\n  x");
    assert_eq!(whitespace(&mut reader), "\n  ".to_string());
    assert_eq!(reader.state.cursor, 3);
}

#[test]
fn parse_keeps_whitespace_of_nested_values() {
    let mut reader = Reader::init("[ {\"a\" : [1 , 2]} ]x");
    let value = parse(&mut reader).unwrap();
    assert_eq!(reader.state.cursor, 19);
    match value {
        Value::List { space0, elements } => {
            assert_eq!(space0, " ");
            assert_eq!(elements.len(), 1);
            assert_eq!(elements[0].space1, " ");
        }
        _ => panic!("expecting a list"),
    }
}

#[test]
fn number_exponent_letter_is_lower_case() {
    let mut reader = Reader::init("2E+3");
    assert_eq!(number_value(&mut reader).unwrap(), Value::Number("2e+3".to_string()));
}

#[test]
fn escaped_open_brace_is_not_a_template() {
    let mut reader = Reader::init("\"\\u007b{x\"");
    match string_value(&mut reader).unwrap() {
        Value::String(t) => assert_eq!(t.elements.len(), 1),
        _ => panic!("expecting a string"),
    }
}

fn read_back(s: &str) -> String {
    let mut reader = Reader::init(s);
    let value = parse(&mut reader).unwrap();
    value.eval(&vec![]).unwrap()
}

#[test]
fn test_json_round_trip() {
    assert_eq!(read_back("{\n  \"a\": true\n}"), "{\n  \"a\": true\n}");
    assert_eq!(read_back("[1 , 2]"), "[1 , 2]");
    assert_eq!(read_back("{\"k\" : [1, -1.50e+3] , \"s\": \"x{y\", \"b\":{}}"), "{\"k\" : [1, -1.50e+3] , \"s\": \"x{y\", \"b\":{}}");
    // an upper-case exponent letter is read as a lower-case one
    assert_eq!(read_back("1E5"), "1e5");
}

#[test]
fn test_json_round_trip_upper_e_in_string() {
    assert_eq!(read_back("{\"E\": \"1E5\"}"), "{\"E\": \"1E5\"}");
}
