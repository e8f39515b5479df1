use hurl::common::SourceInfo;
use hurl::runner::results::{EntryResult, Error, HurlResult, RunnerError};

fn entry(errors: Vec<Error>) -> EntryResult {
    EntryResult { request: None, response: None, captures: vec![], asserts: vec![], errors, time_in_ms: 0 }
}

fn result(entries: Vec<EntryResult>) -> HurlResult {
    HurlResult { filename: "test.hurl".to_string(), entries, time_in_ms: 0, success: true, cookies: vec![] }
}

#[test]
fn test_success_without_errors() {
    assert!(result(vec![]).success());
    assert!(result(vec![entry(vec![]), entry(vec![])]).success());
}

#[test]
fn test_success_with_an_error() {
    let error = Error {
        source_info: SourceInfo::init(1, 1, 1, 5),
        inner: RunnerError::QueryHeaderNotFound,
        assert: true,
    };
    assert!(!result(vec![entry(vec![]), entry(vec![error])]).success());
}

#[test]
fn test_errors_in_entry_order() {
    let e1 = Error { source_info: SourceInfo::init(1, 1, 1, 5), inner: RunnerError::QueryHeaderNotFound, assert: true };
    let e2 = Error {
        source_info: SourceInfo::init(2, 1, 2, 5),
        inner: RunnerError::AssertStatus { actual: "404".to_string() },
        assert: false,
    };
    let e3 = Error { source_info: SourceInfo::init(3, 1, 3, 5), inner: RunnerError::InvalidURL("x".to_string()), assert: false };
    let r = result(vec![entry(vec![e1]), entry(vec![]), entry(vec![e2, e3])]);
    let errors = r.errors();
    assert_eq!(errors.len(), 3);
    assert_eq!(errors[0].inner, RunnerError::QueryHeaderNotFound);
    assert_eq!(errors[1].inner, RunnerError::AssertStatus { actual: "404".to_string() });
    assert_eq!(errors[2].source_info, SourceInfo::init(3, 1, 3, 5));
    assert!(result(vec![entry(vec![])]).errors().is_empty());
}

#[test]
fn assert_test_invalid_xpath() {}
