use hurl::common::{SourceInfo, Value};
use hurl::http::libcurl::{FileParam, Header, Method, MultipartParam, Param, Request as HttpRequest, RequestCookie};
use hurl::json::{Expr, Template, TemplateElement, Variable, Whitespace};
use hurl::runner::entry::{MultipartSpec, Request};
use hurl::runner::capture::Capture;
use hurl::runner::query::{Query, QueryValue};
use hurl::runner::response::{Body, Bytes, KeyValue, Response, Status, Version, VersionValue};
use hurl::runner::results::{Error, RunnerError};

fn text(value: &str) -> Template {
    Template {
        quotes: false,
        elements: vec![TemplateElement::String { value: value.to_string(), encoded: value.to_string() }],
        source_info: SourceInfo::init(0, 0, 0, 0),
    }
}

fn variable(name: &str, line: usize) -> Template {
    let space = Whitespace { value: String::new(), source_info: SourceInfo::init(0, 0, 0, 0) };
    Template {
        quotes: false,
        elements: vec![TemplateElement::Expression(Expr {
            space0: space.clone(),
            variable: Variable { name: name.to_string(), source_info: SourceInfo::init(line, 7, line, 15) },
            space1: space,
        })],
        source_info: SourceInfo::init(0, 0, 0, 0),
    }
}

fn kv(key: &str, value: Template) -> KeyValue {
    KeyValue { key: key.to_string(), key_source_info: SourceInfo::init(0, 0, 0, 0), value }
}

fn request(url: Template) -> Request {
    Request {
        method: Method::Get,
        url,
        headers: vec![],
        querystring: vec![],
        form: vec![],
        cookies: vec![],
        multipart: vec![],
        body: None,
    }
}

#[test]
fn test_hello_request() {
    let variables = vec![("base_url".to_string(), Value::String("http://localhost:8000".to_string()))];
    let mut url = variable("base_url", 1);
    url.elements.push(TemplateElement::String { value: "/hello".to_string(), encoded: "/hello".to_string() });
    assert_eq!(
        request(url).eval(&variables, None, vec![]).unwrap(),
        HttpRequest {
            method: Method::Get,
            url: "http://localhost:8000/hello".to_string(),
            headers: vec![],
            querystring: vec![],
            form: vec![],
            multipart: vec![],
            cookies: vec![],
            body: vec![],
        }
    );
}

#[test]
fn test_error_variable() {
    let error = request(variable("base_url", 1)).eval(&vec![], None, vec![]).err().unwrap();
    assert_eq!(error.source_info, SourceInfo::init(1, 7, 1, 15));
    assert_eq!(error.inner, RunnerError::TemplateVariableNotDefined { name: "base_url".to_string() });
}

#[test]
fn test_full_request() {
    let variables = vec![("v".to_string(), Value::Integer(1))];
    let mut r = request(text("http://localhost/form"));
    r.method = Method::Post;
    r.headers = vec![kv("User-Agent", text("iPhone"))];
    r.querystring = vec![kv("param1", variable("v", 2))];
    r.form = vec![kv("a", text("b"))];
    r.cookies = vec![RequestCookie { name: "theme".to_string(), value: "light".to_string() }];
    r.multipart = vec![
        MultipartSpec::Param(kv("key1", text("value1"))),
        MultipartSpec::File {
            key: "upload".to_string(),
            filename: "data.bin".to_string(),
            filename_source_info: SourceInfo::init(5, 1, 5, 9),
            content_type: None,
        },
    ];
    r.body = Some(Body {
        space0: Whitespace { value: String::new(), source_info: SourceInfo::init(0, 0, 0, 0) },
        value: Bytes::RawString { value: text("hello") },
    });
    let files = vec![Ok(vec![]), Ok(b"Hello World!".to_vec())];
    assert_eq!(
        r.eval(&variables, None, files).unwrap(),
        HttpRequest {
            method: Method::Post,
            url: "http://localhost/form".to_string(),
            headers: vec![Header { name: "User-Agent".to_string(), value: "iPhone".to_string() }],
            querystring: vec![Param { name: "param1".to_string(), value: "1".to_string() }],
            form: vec![Param { name: "a".to_string(), value: "b".to_string() }],
            multipart: vec![
                MultipartParam::Param(Param { name: "key1".to_string(), value: "value1".to_string() }),
                MultipartParam::FileParam(FileParam {
                    name: "upload".to_string(),
                    filename: "data.bin".to_string(),
                    data: b"Hello World!".to_vec(),
                    content_type: "application/octet-stream".to_string(),
                }),
            ],
            cookies: vec![RequestCookie { name: "theme".to_string(), value: "light".to_string() }],
            body: b"hello".to_vec(),
        }
    );
}

#[test]
fn test_request_file_error() {
    let mut r = request(text("http://localhost/upload"));
    r.multipart = vec![MultipartSpec::File {
        key: "upload".to_string(),
        filename: "missing.bin".to_string(),
        filename_source_info: SourceInfo::init(5, 1, 5, 12),
        content_type: Some("text/plain".to_string()),
    }];
    let missing = Error {
        source_info: SourceInfo::init(5, 1, 5, 12),
        inner: RunnerError::FileReadAccess { value: "missing.bin".to_string() },
        assert: false,
    };
    let error = r.eval(&vec![], None, vec![Err(missing)]).err().unwrap();
    assert_eq!(error.inner, RunnerError::FileReadAccess { value: "missing.bin".to_string() });
}

#[test]
fn test_query_request() {
    let variables = vec![("param1".to_string(), Value::String("value1".to_string()))];
    let mut r = request(text("http://localhost:8000/querystring-params"));
    r.querystring = vec![kv("param1", variable("param1", 1)), kv("param2", text("a b"))];
    assert_eq!(
        r.eval(&variables, None, vec![]).unwrap(),
        HttpRequest {
            method: Method::Get,
            url: "http://localhost:8000/querystring-params".to_string(),
            headers: vec![],
            querystring: vec![
                Param { name: "param1".to_string(), value: "value1".to_string() },
                Param { name: "param2".to_string(), value: "a b".to_string() },
            ],
            form: vec![],
            multipart: vec![],
            cookies: vec![],
            body: vec![],
        }
    );
}

fn capture_response(names: &[&str]) -> Response {
    Response {
        version: Version { value: VersionValue::VersionAny, source_info: SourceInfo::init(0, 0, 0, 0) },
        status: Status { value: 200, source_info: SourceInfo::init(0, 0, 0, 0) },
        headers: vec![],
        body: None,
        asserts: vec![],
        captures: names
            .iter()
            .map(|n| Capture {
                name: n.to_string(),
                query: Query { source_info: SourceInfo::init(3, 1, 3, 8), value: QueryValue::Status {} },
                subquery: None,
            })
            .collect(),
    }
}

#[test]
fn test_run_captures() {
    let mut variables = vec![("a".to_string(), Value::Integer(1))];
    let captured = capture_response(&["count", "a"])
        .run_captures(&mut variables, vec![Ok(Some(Value::Float(2, 0))), Ok(Some(Value::Integer(7)))])
        .unwrap();
    assert_eq!(captured.len(), 2);
    assert_eq!(variables, vec![("a".to_string(), Value::Integer(7)), ("count".to_string(), Value::Float(2, 0))]);
    let error = capture_response(&["b"]).run_captures(&mut variables, vec![Ok(None)]).err().unwrap();
    assert_eq!(error.inner, RunnerError::NoQueryResult);
    assert_eq!(variables.len(), 2);
}
