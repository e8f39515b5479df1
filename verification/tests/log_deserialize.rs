use hurl::http::libcurl::{Header, Method, Param, Request, RequestCookie, Response, Version};
use hurl::json_doc::JsonDoc;
use hurl::runner::cookie::{CookieAttribute, ResponseCookie};
use hurl::runner::log_deserialize::{
    parse_entry_result, parse_header, parse_method, parse_param, parse_request, parse_request_cookie, parse_response,
    parse_response_cookie, parse_result, parse_results, parse_version,
};

fn to_doc(v: serde_json::Value) -> JsonDoc {
    match v {
        serde_json::Value::Null => JsonDoc::Null,
        serde_json::Value::Bool(b) => JsonDoc::Bool(b),
        serde_json::Value::Number(n) => JsonDoc::Number(n.to_string(), n.as_u64()),
        serde_json::Value::String(s) => JsonDoc::String(s),
        serde_json::Value::Array(values) => JsonDoc::Array(values.into_iter().map(to_doc).collect()),
        serde_json::Value::Object(map) => JsonDoc::Object(map.into_iter().map(|(k, v)| (k, to_doc(v))).collect()),
    }
}

fn doc(s: &str) -> JsonDoc {
    to_doc(serde_json::from_str(s).unwrap())
}

#[test]
fn log_deserialize_test_parse_method() {
    assert_eq!(parse_method("GET".to_string()).unwrap(), Method::Get);

    let error = parse_method("x".to_string()).err().unwrap();
    assert_eq!(error, "Invalid method <x>");
}

#[test]
fn log_deserialize_test_parse_version() {
    assert_eq!(parse_version("HTTP/1.0".to_string()).unwrap(), Version::Http10);
}

#[test]
fn log_deserialize_test_parse_header() {
    let v = doc(r#"{ "name": "name1", "value": "value1" }"#);
    assert_eq!(parse_header(v).unwrap(), Header { name: "name1".to_string(), value: "value1".to_string() });
}

#[test]
fn log_deserialize_test_parse_response_cookie() {
    let v = doc(r#"{ "name": "name1", "value": "value1" }"#);
    assert_eq!(
        parse_response_cookie(v).unwrap(),
        ResponseCookie { name: "name1".to_string(), value: "value1".to_string(), attributes: vec![] }
    );
    let v = doc(r#"{ "name": "n", "value": "v", "path": "/p", "max_age": 20, "secure": true }"#);
    assert_eq!(
        parse_response_cookie(v).unwrap().attributes,
        vec![
            CookieAttribute { name: "Max-Age".to_string(), value: Some("20".to_string()) },
            CookieAttribute { name: "Path".to_string(), value: Some("/p".to_string()) },
            CookieAttribute { name: "Secure".to_string(), value: None },
        ]
    );
    assert_eq!(
        parse_response_cookie(doc(r#"{ "name": "n", "value": "v", "secure": false }"#)).err().unwrap(),
        "expecting a true for the cookie secure flag"
    );
}

fn hello_http_request() -> Request {
    Request {
        method: Method::Get,
        url: "http://localhost:8000/hello".to_string(),
        querystring: vec![],
        headers: vec![],
        cookies: vec![],
        body: vec![],
        multipart: vec![],
        form: vec![],
    }
}

fn custom_http_request() -> Request {
    Request {
        method: Method::Get,
        url: "http://localhost/custom".to_string(),
        querystring: vec![],
        headers: vec![
            Header { name: String::from("User-Agent"), value: String::from("iPhone") },
            Header { name: String::from("Foo"), value: String::from("Bar") },
        ],
        cookies: vec![
            RequestCookie { name: String::from("theme"), value: String::from("light") },
            RequestCookie { name: String::from("sessionToken"), value: String::from("abc123") },
        ],
        body: vec![],
        multipart: vec![],
        form: vec![],
    }
}

#[test]
fn log_deserialize_test_parse_request() {
    let v = doc(r#"{
    "method": "GET",
    "url": "http://localhost:8000/hello",
    "headers": []
}"#);
    assert_eq!(parse_request(v).unwrap(), hello_http_request());

    let v = doc(r#"{
    "method": "GET",
    "url": "http://localhost:8000/querystring-params?param1=value1&param2=a%20b",
    "headers": []
}"#);
    assert_eq!(
        parse_request(v).unwrap(),
        Request {
            method: Method::Get,
            url: "http://localhost:8000/querystring-params?param1=value1&param2=a%20b".to_string(),
            querystring: vec![],
            headers: vec![],
            cookies: vec![],
            body: vec![],
            form: vec![],
            multipart: vec![],
        }
    );

    let v = doc(r#"{
    "method": "GET",
    "url": "http://localhost/custom",
    "headers": [
       {"name": "User-Agent", "value": "iPhone"},
       {"name": "Foo", "value": "Bar"}
    ],
    "cookies": [
       {"name": "theme", "value": "light"},
       {"name": "sessionToken", "value": "abc123"}
    ]
}"#);
    assert_eq!(parse_request(v).unwrap(), custom_http_request());
}

#[test]
fn log_deserialize_test_parse_response() {
    let v = doc(r#"{
    "status": 200,
    "httpVersion": "HTTP/1.0",
    "headers": [
        {"name": "Content-Type", "value": "text/html; charset=utf-8" },
        {"name": "Content-Length", "value": "12" }

    ]
}"#);
    assert_eq!(
        parse_response(v).unwrap(),
        Response {
            version: Version::Http10,
            status: 200,
            headers: vec![
                Header { name: String::from("Content-Type"), value: String::from("text/html; charset=utf-8") },
                Header { name: String::from("Content-Length"), value: String::from("12") },
            ],
            body: vec![],
        }
    );
}

#[test]
fn log_parse_request_lists() {
    let r = parse_request(doc(
        r#"{ "method": "POST", "url": "http://x", "queryString": [{"name": "a", "value": "1"}], "form": [{"name": "f", "value": "2"}] }"#,
    ))
    .unwrap();
    assert_eq!(r.method, Method::Post);
    assert_eq!(r.querystring[0].name, "a");
    assert_eq!(r.form[0].value, "2");
    assert_eq!(parse_request(doc(r#"{ "method": "GET", "url": "u", "form": [1] }"#)).err().unwrap(), "Expecting object for the param");
    let r = parse_response(doc(r#"{ "status": 404, "httpVersion": "HTTP/2" }"#)).unwrap();
    assert_eq!(r.status, 404);
    assert_eq!(r.version, Version::Http2);
}

#[test]
fn log_deserialize_test_parse_results() {
    let v = doc(
        r#"[{ "filename": "a.hurl", "time": 12, "success": true, "entries": [
            { "request": { "method": "GET", "url": "http://localhost:8000/hello" },
              "response": { "status": 200, "httpVersion": "HTTP/1.1" } },
            {}
        ] }]"#,
    );
    let results = parse_results(v).unwrap();
    assert_eq!(results.len(), 1);
    assert_eq!(results[0].filename, "a.hurl");
    assert_eq!(results[0].time_in_ms, 12);
    assert!(results[0].success);
    assert!(results[0].cookies.is_empty());
    assert_eq!(results[0].entries.len(), 2);
    let request = results[0].entries[0].request.as_ref().unwrap();
    assert_eq!(request.method, Method::Get);
    assert_eq!(request.url, "http://localhost:8000/hello");
    assert_eq!(results[0].entries[0].response.as_ref().unwrap().status, 200);
    assert!(results[0].entries[1].request.is_none());
    assert!(results[0].entries[1].response.is_none());
}

#[test]
fn log_deserialize_test_parse_results_errors() {
    assert_eq!(parse_results(doc(r#"{}"#)).err().unwrap(), "expecting an array of session");
    assert_eq!(parse_results(doc(r#"[1]"#)).err().unwrap(), "expecting an object for the result");
    assert_eq!(parse_result(doc(r#"{ "filename": "a" }"#)).err().unwrap(), "expecting an array of entries");
    assert_eq!(
        parse_result(doc(r#"{ "filename": "a", "entries": [], "time": -1 }"#)).err().unwrap(),
        "expecting an integer for the time"
    );
    assert_eq!(
        parse_result(doc(r#"{ "filename": "a", "entries": [], "time": 1 }"#)).err().unwrap(),
        "expecting a bool for the status"
    );
    assert_eq!(
        parse_entry_result(doc(r#"{ "request": 1 }"#)).err().unwrap(),
        "expecting an object for the request"
    );
}

#[test]
fn log_deserialize_test_parse_param_and_request_cookie() {
    assert_eq!(
        parse_param(doc(r#"{ "name": "a", "value": "1" }"#)).unwrap(),
        Param { name: "a".to_string(), value: "1".to_string() }
    );
    assert_eq!(parse_param(doc(r#"[]"#)).err().unwrap(), "Expecting object for the param");
    assert_eq!(parse_param(doc(r#"{ "name": 1 }"#)).err().unwrap(), "expecting a string for the cookie name");
    assert_eq!(
        parse_request_cookie(doc(r#"{ "name": "c", "value": "v" }"#)).unwrap(),
        RequestCookie { name: "c".to_string(), value: "v".to_string() }
    );
    assert_eq!(
        parse_request_cookie(doc(r#"{ "name": "c", "value": true }"#)).err().unwrap(),
        "expecting a string for the cookie value"
    );
    assert_eq!(parse_request_cookie(doc(r#"1"#)).err().unwrap(), "Expecting object for the request cookie");
}
