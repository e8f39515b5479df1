use hurl::common::{SourceInfo, Value};
use hurl::http::libcurl::{HttpError, Method, Request as HttpRequest, Response as CurlResponse, Version};
use hurl::runner::entry::{entry_error_result, entry_result, http_error_result, runner_error_of};
use hurl::runner::file::{exit_code, hurl_result, initial_variables, next_entry};
use hurl::runner::results::{AssertResult, EntryResult, Error, HurlResult, RunnerError};

fn si(line: usize) -> SourceInfo {
    SourceInfo::init(line, 1, line, 5)
}

fn request() -> HttpRequest {
    HttpRequest {
        method: Method::Get,
        url: "http://localhost:8000/hello".to_string(),
        headers: vec![],
        querystring: vec![],
        form: vec![],
        multipart: vec![],
        cookies: vec![],
        body: vec![],
    }
}

fn entry(errors: Vec<Error>) -> EntryResult {
    EntryResult { request: None, response: None, captures: vec![], asserts: vec![], errors, time_in_ms: 0 }
}

fn error(assert: bool) -> Error {
    Error { source_info: si(1), inner: RunnerError::QueryInvalidJson, assert }
}

#[test]
fn test_next_entry() {
    assert_eq!(next_entry(3, None, false, &vec![]), Some(0));
    assert_eq!(next_entry(3, None, false, &vec![entry(vec![error(false)])]), Some(1));
    assert_eq!(next_entry(3, None, true, &vec![entry(vec![error(false)])]), None);
    assert_eq!(next_entry(3, Some(1), false, &vec![entry(vec![])]), None);
    assert_eq!(next_entry(3, Some(5), false, &vec![entry(vec![]), entry(vec![]), entry(vec![])]), None);
    assert_eq!(next_entry(3, Some(2), true, &vec![entry(vec![])]), Some(1));
}

#[test]
fn test_hurl_result() {
    let h = hurl_result("a.hurl".to_string(), vec![entry(vec![]), entry(vec![])], 12, vec![]);
    assert!(h.success);
    assert_eq!(h.filename, "a.hurl");
    let h = hurl_result("a.hurl".to_string(), vec![entry(vec![]), entry(vec![error(true)])], 12, vec![]);
    assert!(!h.success);
}

#[test]
fn test_exit_code() {
    let result = |errors: Vec<Error>| HurlResult {
        filename: "f".to_string(),
        entries: vec![entry(errors)],
        time_in_ms: 0,
        success: false,
        cookies: vec![],
    };
    assert_eq!(exit_code(&vec![result(vec![])]), 0);
    assert_eq!(exit_code(&vec![result(vec![]), result(vec![error(true)])]), 4);
    assert_eq!(exit_code(&vec![result(vec![error(true)]), result(vec![error(false), error(true)])]), 3);
}

#[test]
fn test_initial_variables() {
    let vs = initial_variables(vec![
        ("a".to_string(), "1".to_string()),
        ("b".to_string(), "2".to_string()),
        ("a".to_string(), "3".to_string()),
    ]);
    assert_eq!(
        vs,
        vec![("a".to_string(), Value::String("3".to_string())), ("b".to_string(), Value::String("2".to_string()))]
    );
}

#[test]
fn test_entry_error_results() {
    let r = entry_error_result(None, error(false));
    assert_eq!(r, EntryResult { request: None, response: None, captures: vec![], asserts: vec![], errors: vec![error(false)], time_in_ms: 0 });
    let r = http_error_result(request(), si(1), HttpError::Other { description: "refused".to_string() });
    assert_eq!(
        r.errors,
        vec![Error {
            source_info: si(1),
            inner: RunnerError::HttpConnection { url: "http://localhost:8000/hello".to_string(), message: "refused".to_string() },
            assert: false,
        }]
    );
    assert_eq!(r.request, Some(request()));
    assert_eq!(runner_error_of(HttpError::Timeout, &"u".to_string()), RunnerError::Timeout);
    assert_eq!(runner_error_of(HttpError::InvalidUrl, &"u".to_string()), RunnerError::InvalidURL("u".to_string()));
}

#[test]
fn test_entry_result() {
    let response = CurlResponse { version: Version::Http11, status: 200, headers: vec![], body: vec![] };
    let asserts = vec![
        AssertResult::Status { actual: 200, expected: 200, source_info: si(2) },
        AssertResult::Status { actual: 404, expected: 200, source_info: si(3) },
    ];
    let r = entry_result(request(), response, vec![], asserts, 7);
    assert_eq!(
        r.errors,
        vec![Error { source_info: si(3), inner: RunnerError::AssertStatus { actual: "404".to_string() }, assert: true }]
    );
    assert_eq!(r.asserts.len(), 2);
    assert_eq!(r.time_in_ms, 7);
}
