use hurl::common::{SourceInfo, Value};
use hurl::runner::assert_result::assert_errors;
use hurl::runner::results::{AssertResult, CaptureResult, Error, RunnerError};
use hurl::runner::variables::{insert_variable, update_variables};

fn si(line: usize) -> SourceInfo {
    SourceInfo::init(line, 1, line, 5)
}

#[test]
fn test_assert_result_error() {
    let version = AssertResult::Version { actual: "1.1".to_string(), expected: "1.0".to_string(), source_info: si(1) };
    assert!(version.fail());
    let version = AssertResult::Version { actual: "1.1".to_string(), expected: "1.0".to_string(), source_info: si(1) };
    assert_eq!(
        version.error(),
        Some(Error { source_info: si(1), inner: RunnerError::AssertVersion { actual: "1.1".to_string() }, assert: false })
    );
    let any = AssertResult::Version { actual: "2".to_string(), expected: "*".to_string(), source_info: si(1) };
    assert_eq!(any.error(), None);
    let status = AssertResult::Status { actual: 404, expected: 200, source_info: si(2) };
    assert_eq!(
        status.error(),
        Some(Error { source_info: si(2), inner: RunnerError::AssertStatus { actual: "404".to_string() }, assert: false })
    );
    let header = AssertResult::Header { actual: Ok("a".to_string()), expected: "b".to_string(), source_info: si(3) };
    assert!(!AssertResult::Header { actual: Ok("a".to_string()), expected: "b".to_string(), source_info: si(3) }.fail());
    assert_eq!(
        header.error(),
        Some(Error { source_info: si(3), inner: RunnerError::AssertHeaderValueError { actual: "a".to_string() }, assert: false })
    );
    let body = AssertResult::Body {
        actual: Ok(Value::String("x".to_string())),
        expected: Ok(Value::Integer(1)),
        source_info: si(4),
    };
    assert_eq!(
        body.error(),
        Some(Error {
            source_info: si(4),
            inner: RunnerError::AssertBodyValueError { actual: "x".to_string(), expected: "1".to_string() },
            assert: false
        })
    );
    let same = AssertResult::Body { actual: Ok(Value::Integer(1)), expected: Ok(Value::Integer(1)), source_info: si(4) };
    assert_eq!(same.error(), None);
}

#[test]
fn test_assert_errors() {
    let asserts = vec![
        AssertResult::Status { actual: 200, expected: 200, source_info: si(1) },
        AssertResult::Status { actual: 500, expected: 200, source_info: si(2) },
        AssertResult::Explicit {
            actual: Ok(Some(Value::Integer(1))),
            source_info: si(3),
            predicate_result: Some(Ok(())),
        },
        AssertResult::Explicit {
            actual: Err(Error { source_info: si(4), inner: RunnerError::QueryInvalidJson, assert: false }),
            source_info: si(4),
            predicate_result: None,
        },
    ];
    assert_eq!(
        assert_errors(asserts),
        vec![
            Error { source_info: si(2), inner: RunnerError::AssertStatus { actual: "500".to_string() }, assert: true },
            Error { source_info: si(4), inner: RunnerError::QueryInvalidJson, assert: true },
        ]
    );
}

#[test]
fn test_update_variables() {
    let mut variables = vec![("a".to_string(), Value::Integer(1)), ("b".to_string(), Value::Integer(2))];
    insert_variable(&mut variables, "b".to_string(), Value::Bool(true));
    assert_eq!(variables, vec![("a".to_string(), Value::Integer(1)), ("b".to_string(), Value::Bool(true))]);
    update_variables(
        &mut variables,
        vec![
            CaptureResult { name: "c".to_string(), value: Value::Integer(3) },
            CaptureResult { name: "a".to_string(), value: Value::Integer(4) },
            CaptureResult { name: "c".to_string(), value: Value::Integer(5) },
        ],
    );
    assert_eq!(
        variables,
        vec![
            ("a".to_string(), Value::Integer(4)),
            ("b".to_string(), Value::Bool(true)),
            ("c".to_string(), Value::Integer(5)),
        ]
    );
}
