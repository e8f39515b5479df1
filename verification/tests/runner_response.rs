use hurl::common::{SourceInfo, Value};
use hurl::http::header::Header;
use hurl::http::response::{Response as HttpResponse, Version as HttpVersion};
use hurl::json::{Template, TemplateElement, Value as JsonValue, Whitespace};
use hurl::runner::predicate_func::{Predicate, PredicateFunc, PredicateFuncValue};
use hurl::runner::capture::Capture;
use hurl::runner::query::{Query, QueryValue};
use hurl::runner::response::{Assert, Body, Bytes, KeyValue, Response, Status, Version, VersionValue};
use hurl::runner::results::{AssertResult, CaptureResult, Error, RunnerError};

fn whitespace() -> Whitespace {
    Whitespace { value: String::from(" "), source_info: SourceInfo::init(1, 1, 1, 1) }
}

fn text_template(value: &str, source_info: SourceInfo) -> Template {
    Template {
        quotes: true,
        elements: vec![TemplateElement::String { value: value.to_string(), encoded: value.to_string() }],
        source_info,
    }
}

fn xml_two_users_http_response() -> HttpResponse {
    HttpResponse {
        version: HttpVersion::Http10,
        status: 200,
        headers: vec![
            Header { name: String::from("Content-Type"), value: String::from("text/html; charset=utf-8") },
            Header { name: String::from("Content-Length"), value: String::from("12") },
        ],
        body: String::into_bytes(
            r#"
<?xml version="1.0"?>
<users>
  <user id="1">Bob</user>
  <user id="2">Bill</user>
</users>
"#
            .to_string(),
        ),
    }
}

fn assert_count_user() -> Assert {
    Assert {
        query: Query {
            source_info: SourceInfo::init(1, 1, 1, 13),
            value: QueryValue::Xpath { space0: whitespace(), expr: text_template("//user", SourceInfo::init(0, 0, 0, 0)) },
        },
        predicate: Predicate {
            not: false,
            space0: whitespace(),
            predicate_func: PredicateFunc {
                source_info: SourceInfo::init(1, 14, 1, 27),
                value: PredicateFuncValue::CountEqual { space0: whitespace(), value: 3 },
            },
        },
    }
}

fn user_count_capture() -> Capture {
    Capture {
        name: "UserCount".to_string(),
        query: Query {
            source_info: SourceInfo::init(1, 1, 1, 13),
            value: QueryValue::Xpath {
                space0: whitespace(),
                expr: text_template("count(//user)", SourceInfo::init(0, 0, 0, 0)),
            },
        },
        subquery: None,
    }
}

fn user_response() -> Response {
    Response {
        version: Version { value: VersionValue::Version1, source_info: SourceInfo::init(2, 6, 2, 9) },
        status: Status { value: 200, source_info: SourceInfo::init(2, 10, 2, 13) },
        headers: vec![],
        body: None,
        asserts: vec![assert_count_user()],
        captures: vec![user_count_capture()],
    }
}

#[test]
pub fn test_eval_asserts() {
    let variables = vec![];
    // what the XPath engine gives for `//user` on the two users
    let actuals = vec![Ok(Some(Value::Nodeset(2)))];
    assert_eq!(
        user_response().eval_asserts(&variables, xml_two_users_http_response(), None, actuals),
        vec![
            AssertResult::Version {
                actual: String::from("1.0"),
                expected: String::from("1.0"),
                source_info: SourceInfo::init(2, 6, 2, 9),
            },
            AssertResult::Status { actual: 200, expected: 200, source_info: SourceInfo::init(2, 10, 2, 13) },
            AssertResult::Explicit {
                actual: Ok(Some(Value::Nodeset(2))),
                source_info: SourceInfo::init(1, 14, 1, 27),
                predicate_result: Some(Err(Error {
                    source_info: SourceInfo::init(1, 0, 1, 0),
                    inner: RunnerError::AssertFailure {
                        actual: "nodeset of size <2>".to_string(),
                        expected: "count equals to <3>".to_string(),
                        type_mismatch: false,
                    },
                    assert: true,
                })),
            }
        ]
    );
}

fn header_assert(key: &str, value: &str) -> KeyValue {
    KeyValue {
        key: key.to_string(),
        key_source_info: SourceInfo::init(3, 1, 3, 5),
        value: text_template(value, SourceInfo::init(3, 7, 3, 10)),
    }
}

fn vary_response() -> HttpResponse {
    HttpResponse {
        version: HttpVersion::Http11,
        status: 200,
        headers: vec![
            Header { name: "Vary".to_string(), value: "a".to_string() },
            Header { name: "vary".to_string(), value: "b".to_string() },
            Header { name: "Single".to_string(), value: "one".to_string() },
        ],
        body: b"hello".to_vec(),
    }
}

#[test]
fn test_header_asserts() {
    let vs = vec![];
    let r = vary_response();
    assert_eq!(
        header_assert("Single", "one").eval_assert(&vs, &r),
        AssertResult::Header { actual: Ok("one".to_string()), expected: "one".to_string(), source_info: SourceInfo::init(3, 7, 3, 10) }
    );
    assert_eq!(
        header_assert("VARY", "b").eval_assert(&vs, &r),
        AssertResult::Header { actual: Ok("b".to_string()), expected: "b".to_string(), source_info: SourceInfo::init(3, 7, 3, 10) }
    );
    assert_eq!(
        header_assert("Vary", "c").eval_assert(&vs, &r),
        AssertResult::Header {
            actual: Ok("[\"a\", \"b\"]".to_string()),
            expected: "c".to_string(),
            source_info: SourceInfo::init(3, 7, 3, 10)
        }
    );
    assert_eq!(
        header_assert("Missing", "x").eval_assert(&vs, &r),
        AssertResult::Header {
            actual: Err(Error {
                source_info: SourceInfo::init(3, 1, 3, 5),
                inner: RunnerError::QueryHeaderNotFound,
                assert: false
            }),
            expected: "x".to_string(),
            source_info: SourceInfo::init(3, 1, 3, 5)
        }
    );
}

#[test]
fn test_body_asserts() {
    let vs = vec![];
    let r = vary_response();
    let space = |a: usize, b: usize| Whitespace { value: String::new(), source_info: SourceInfo::init(5, a, 5, b) };
    let xml = Body { space0: space(1, 1), value: Bytes::Xml { value: "hello".to_string() } };
    assert_eq!(
        xml.eval_assert(&vs, &r, None),
        AssertResult::Body {
            actual: Ok(Value::String("hello".to_string())),
            expected: Ok(Value::String("hello".to_string())),
            source_info: SourceInfo::init(5, 1, 5, 1)
        }
    );
    let base64 = Body {
        space0: space(1, 1),
        value: Bytes::Base64 { space0: space(8, 9), value: vec![1, 2], space1: space(14, 15) },
    };
    assert_eq!(
        base64.eval_assert(&vs, &r, None),
        AssertResult::Body {
            actual: Ok(Value::Bytes(b"hello".to_vec())),
            expected: Ok(Value::Bytes(vec![1, 2])),
            source_info: SourceInfo::init(5, 9, 5, 14)
        }
    );
    let file = Body { space0: space(1, 1), value: Bytes::File { filename: "data.bin".to_string() } };
    let missing = Error {
        source_info: SourceInfo::init(5, 6, 5, 14),
        inner: RunnerError::FileReadAccess { value: "data.bin".to_string() },
        assert: false,
    };
    assert_eq!(
        file.eval_assert(&vs, &r, Some(Err(missing))),
        AssertResult::Body {
            actual: Ok(Value::Bytes(b"hello".to_vec())),
            expected: Err(Error {
                source_info: SourceInfo::init(5, 6, 5, 14),
                inner: RunnerError::FileReadAccess { value: "data.bin".to_string() },
                assert: false,
            }),
            source_info: SourceInfo::init(5, 1, 5, 1)
        }
    );
    let json = Body { space0: space(1, 1), value: Bytes::Json { value: JsonValue::Boolean(true) } };
    let bytes = HttpResponse { version: HttpVersion::Http11, status: 200, headers: vec![], body: vec![255] };
    assert_eq!(
        json.eval_assert(&vs, &bytes, None),
        AssertResult::Body {
            actual: Err(Error {
                source_info: SourceInfo::init(1, 1, 1, 1),
                inner: RunnerError::InvalidDecoding { charset: "utf-8".to_string() },
                assert: true,
            }),
            expected: Ok(Value::String("true".to_string())),
            source_info: SourceInfo::init(5, 1, 5, 1)
        }
    );
    let raw = Body { space0: space(1, 1), value: Bytes::RawString { value: text_template("hello", SourceInfo::init(6, 1, 6, 6)) } };
    assert_eq!(
        raw.eval_assert(&vs, &r, None),
        AssertResult::Body {
            actual: Ok(Value::String("hello".to_string())),
            expected: Ok(Value::String("hello".to_string())),
            source_info: SourceInfo::init(6, 1, 6, 6)
        }
    );
}

#[test]
fn test_explicit_assert_query_error() {
    let vs = vec![];
    let error = Error { source_info: SourceInfo::init(1, 1, 1, 13), inner: RunnerError::QueryInvalidXml, assert: false };
    assert_eq!(
        assert_count_user().eval(&vs, Err(error)),
        AssertResult::Explicit {
            actual: Err(Error { source_info: SourceInfo::init(1, 1, 1, 13), inner: RunnerError::QueryInvalidXml, assert: false }),
            source_info: SourceInfo::init(1, 14, 1, 27),
            predicate_result: None,
        }
    );
}

#[test]
pub fn test_eval_captures() {
    let variables = vec![];
    // what the XPath engine gives for `count(//user)` on the two users
    let actuals = vec![Ok(Some(Value::Float(2, 0)))];
    assert_eq!(
        user_response().eval_captures(&variables, actuals).unwrap(),
        vec![CaptureResult { name: "UserCount".to_string(), value: Value::Float(2, 0) }]
    );
}

#[test]
fn test_eval_captures_first_error() {
    let variables = vec![];
    let mut response = user_response();
    response.captures.push(user_count_capture());
    let error = response.eval_captures(&variables, vec![Ok(Some(Value::Integer(1))), Ok(None)]).err().unwrap();
    assert_eq!(error.source_info, SourceInfo::init(1, 1, 1, 13));
    assert_eq!(error.inner, RunnerError::NoQueryResult);
}

#[test]
fn test_body_bytes() {
    let vs = vec![("name".to_string(), Value::String("Bob".to_string()))];
    let space = Whitespace { value: String::new(), source_info: SourceInfo::init(0, 0, 0, 0) };
    let raw = Bytes::RawString {
        value: Template {
            quotes: false,
            elements: vec![
                TemplateElement::String { value: "caf\u{e9} ".to_string(), encoded: "caf\u{e9} ".to_string() },
                TemplateElement::Expression(hurl::json::Expr {
                    space0: space.clone(),
                    variable: hurl::json::Variable { name: "name".to_string(), source_info: SourceInfo::init(1, 8, 1, 12) },
                    space1: space.clone(),
                }),
            ],
            source_info: SourceInfo::init(1, 1, 1, 14),
        },
    };
    assert_eq!(raw.eval(&vs, None).unwrap(), "caf\u{e9} Bob".as_bytes().to_vec());
    assert_eq!(Bytes::Xml { value: "<a/>".to_string() }.eval(&vs, None).unwrap(), b"<a/>".to_vec());
    let base64 = Bytes::Base64 { space0: space.clone(), value: vec![0, 255], space1: space.clone() };
    assert_eq!(base64.eval(&vs, None).unwrap(), vec![0, 255]);
    let file = Body { space0: space.clone(), value: Bytes::File { filename: "data.bin".to_string() } };
    assert_eq!(file.eval(&vs, Some(Ok(b"Hello World!".to_vec()))).unwrap(), b"Hello World!".to_vec());
    let undefined = Bytes::Json { value: JsonValue::String(Template {
        quotes: true,
        elements: vec![TemplateElement::Expression(hurl::json::Expr {
            space0: space.clone(),
            variable: hurl::json::Variable { name: "missing".to_string(), source_info: SourceInfo::init(2, 3, 2, 10) },
            space1: space.clone(),
        })],
        source_info: SourceInfo::init(2, 1, 2, 12),
    }) };
    let error = undefined.eval(&vs, None).err().unwrap();
    assert_eq!(error.source_info, SourceInfo::init(2, 3, 2, 10));
    assert_eq!(error.inner, RunnerError::TemplateVariableNotDefined { name: "missing".to_string() });
}
