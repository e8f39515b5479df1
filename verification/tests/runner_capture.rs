use hurl::common::{Pos, SourceInfo, Value};
use hurl::json::{Template, TemplateElement, Whitespace};
use hurl::runner::capture::{Capture, Subquery, SubqueryValue};
use hurl::runner::query::{Query, QueryValue};
use hurl::runner::results::{CaptureResult, Error, RunnerError};

fn whitespace() -> Whitespace {
    Whitespace { value: String::from(""), source_info: SourceInfo::init(0, 0, 0, 0) }
}

fn text_template(value: &str, source_info: SourceInfo) -> Template {
    Template {
        quotes: true,
        elements: vec![TemplateElement::String { value: value.to_string(), encoded: value.to_string() }],
        source_info,
    }
}

fn xpath_query(expr: &str, expr_source_info: SourceInfo) -> Query {
    Query {
        source_info: SourceInfo::init(1, 1, 1, 13),
        value: QueryValue::Xpath { space0: whitespace(), expr: text_template(expr, expr_source_info) },
    }
}

fn user_count_capture() -> Capture {
    Capture { name: "UserCount".to_string(), query: xpath_query("count(//user)", SourceInfo::init(0, 0, 0, 0)), subquery: None }
}

fn duration_capture() -> Capture {
    Capture {
        name: "duration".to_string(),
        query: Query {
            source_info: SourceInfo::init(1, 1, 1, 19),
            value: QueryValue::Jsonpath { space0: whitespace(), expr: text_template("$.duration", SourceInfo::init(1, 10, 1, 18)) },
        },
        subquery: None,
    }
}

#[test]
fn capture_test_invalid_xpath() {
    let variables = vec![];
    let capture = Capture { name: "count".to_string(), query: xpath_query("???", SourceInfo::init(1, 7, 1, 10)), subquery: None };
    // what the XPath engine answers for `???`
    let actual = Err(Error { source_info: SourceInfo::init(1, 7, 1, 10), inner: RunnerError::QueryInvalidXpathEval, assert: false });
    let error = capture.eval(&variables, actual).err().unwrap();
    assert_eq!(error.source_info.start, Pos { line: 1, column: 7 });
    assert_eq!(error.inner, RunnerError::QueryInvalidXpathEval)
}

#[test]
fn test_capture_unsupported() {
    let _capture = Capture {
        name: "???".to_string(),
        query: xpath_query("//user", SourceInfo::init(1, 7, 1, 13)),
        subquery: None,
    };
}

#[test]
fn capture_test_capture() {
    let variables = vec![];
    // what the engines give: `count(//user)` on three users, `$.duration` on 1.5
    assert_eq!(
        user_count_capture().eval(&variables, Ok(Some(Value::Float(3, 0)))).unwrap(),
        CaptureResult { name: "UserCount".to_string(), value: Value::Float(3, 0) }
    );
    assert_eq!(
        duration_capture().eval(&variables, Ok(Some(Value::Float(1, 500000000000000000)))).unwrap(),
        CaptureResult { name: "duration".to_string(), value: Value::Float(1, 500000000000000000) }
    );
}

fn regex_subquery(expr: &str) -> Subquery {
    Subquery {
        source_info: SourceInfo::init(1, 1, 1, 20),
        value: SubqueryValue::Regex {
            space0: whitespace(),
            expr: Template {
                quotes: false,
                elements: vec![TemplateElement::String { value: expr.to_string(), encoded: expr.to_string() }],
                source_info: SourceInfo::init(1, 7, 1, 20),
            },
        },
    }
}

#[test]
fn test_subquery_value_regex() {
    let variables = vec![];
    let subquery = regex_subquery("Hello (.*)!");
    assert_eq!(
        subquery.clone().eval(&variables, Value::String("Hello Bob!".to_string())).unwrap().unwrap(),
        Value::String("Bob".to_string())
    );
    let error = subquery.eval(&variables, Value::Bool(true)).err().unwrap();
    assert_eq!(error.source_info, SourceInfo::init(1, 1, 1, 20));
    assert_eq!(error.inner, RunnerError::SubqueryInvalidInput);
}

#[test]
fn test_subquery_value_error() {
    let variables = vec![];
    let error = regex_subquery("???").eval(&variables, Value::String("Hello Bob!".to_string())).err().unwrap();
    assert_eq!(error.source_info, SourceInfo::init(1, 7, 1, 20));
    assert_eq!(error.inner, RunnerError::InvalidRegex {});
}

#[test]
fn test_capture_with_subquery() {
    let variables = vec![];
    let capture = Capture {
        name: "who".to_string(),
        query: xpath_query("string(//user)", SourceInfo::init(0, 0, 0, 0)),
        subquery: Some(regex_subquery("Hello (.*)!")),
    };
    assert_eq!(
        capture.clone().eval(&variables, Ok(Some(Value::String("Hello Bob!".to_string())))).unwrap(),
        CaptureResult { name: "who".to_string(), value: Value::String("Bob".to_string()) }
    );
    let error = capture.eval(&variables, Ok(Some(Value::String("Bye".to_string())))).err().unwrap();
    assert_eq!(error.source_info, SourceInfo::init(1, 1, 1, 20));
    assert_eq!(error.inner, RunnerError::NoQueryResult);
}
