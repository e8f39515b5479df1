use hurl::http::cookie::ResponseCookie;
use hurl::http::header::Header;
use hurl::http::import::{
    checked_parse_request, parse_cookie, parse_header, parse_method, parse_request, parse_response,
    parse_response_cookie, parse_url, parse_version,
};
use hurl::http::request::{Method, Request, Url};
use hurl::http::response::{Response, Version};
use hurl::json_doc::JsonDoc;

fn to_doc(v: serde_json::Value) -> JsonDoc {
    match v {
        serde_json::Value::Null => JsonDoc::Null,
        serde_json::Value::Bool(b) => JsonDoc::Bool(b),
        serde_json::Value::Number(n) => JsonDoc::Number(n.to_string(), n.as_u64()),
        serde_json::Value::String(s) => JsonDoc::String(s),
        serde_json::Value::Array(values) => JsonDoc::Array(values.into_iter().map(to_doc).collect()),
        serde_json::Value::Object(map) => JsonDoc::Object(map.into_iter().map(|(k, v)| (k, to_doc(v))).collect()),
    }
}

fn doc(s: &str) -> JsonDoc {
    to_doc(serde_json::from_str(s).unwrap())
}

#[test]
fn import_test_parse_method() {
    assert_eq!(parse_method("GET".to_string()).unwrap(), Method::Get);

    let error = parse_method("x".to_string()).err().unwrap();
    assert_eq!(error, "Invalid method <x>");
}

#[test]
fn test_parse_url() {
    let u = parse_url("http://localhost:8000/query?param1=value1".to_string()).unwrap();
    assert_eq!(
        u,
        Url {
            scheme: "http".to_string(),
            host: "localhost".to_string(),
            port: Some(8000),
            path: "/query".to_string(),
            query_string: "param1=value1".to_string(),
        }
    );
}

#[test]
fn import_test_parse_version() {
    assert_eq!(parse_version("HTTP/1.0".to_string()).unwrap(), Version::Http10);
}

#[test]
fn import_test_parse_header() {
    let v = doc(r#"{ "name": "name1", "value": "value1" }"#);
    assert_eq!(parse_header(v).unwrap(), Header { name: "name1".to_string(), value: "value1".to_string() });
    assert_eq!(parse_header(doc(r#"{ "name": 1 }"#)).err().unwrap(), "expecting a string for the header name");
    assert_eq!(parse_header(doc(r#"[]"#)).err().unwrap(), "Expecting object for one header");
}

#[test]
fn import_test_parse_response_cookie() {
    let v = doc(r#"{ "name": "name1", "value": "value1" }"#);
    assert_eq!(
        parse_response_cookie(v).unwrap(),
        ResponseCookie {
            name: "name1".to_string(),
            value: "value1".to_string(),
            max_age: None,
            domain: None,
            path: None,
            secure: None,
            http_only: None,
            expires: None,
            same_site: None,
        }
    );
    assert_eq!(
        parse_response_cookie(doc(r#"{ "name": "n", "value": "v", "secure": "yes" }"#)).err().unwrap(),
        "expecting a bool for the cookie secure flag"
    );
}

fn hello_http_request() -> Request {
    Request {
        method: Method::Get,
        url: Url {
            scheme: "http".to_string(),
            host: "localhost".to_string(),
            port: Some(8000),
            path: "/hello".to_string(),
            query_string: "".to_string(),
        },
        querystring: vec![],
        headers: vec![],
        cookies: vec![],
        body: vec![],
        multipart: vec![],
    }
}

fn cookie(name: &str, value: &str) -> ResponseCookie {
    ResponseCookie {
        name: String::from(name),
        value: String::from(value),
        max_age: None,
        domain: None,
        path: None,
        secure: None,
        http_only: None,
        expires: None,
        same_site: None,
    }
}

fn custom_http_request() -> Request {
    Request {
        method: Method::Get,
        url: Url {
            scheme: "http".to_string(),
            host: "localhost".to_string(),
            port: None,
            path: "/custom".to_string(),
            query_string: "".to_string(),
        },
        querystring: vec![],
        headers: vec![
            Header { name: String::from("User-Agent"), value: String::from("iPhone") },
            Header { name: String::from("Foo"), value: String::from("Bar") },
        ],
        cookies: vec![cookie("theme", "light"), cookie("sessionToken", "abc123")],
        body: vec![],
        multipart: vec![],
    }
}

#[test]
fn import_test_parse_request() {
    let v = doc(r#"{
    "method": "GET",
    "url": "http://localhost:8000/hello",
    "headers": []
}"#);
    assert_eq!(parse_request(v).unwrap(), hello_http_request());

    let v = doc(r#"{
    "method": "GET",
    "url": "http://localhost:8000/querystring-params?param1=value1&param2=a%20b",
    "headers": []
}"#);
    assert_eq!(
        parse_request(v).unwrap(),
        Request {
            method: Method::Get,
            url: Url {
                scheme: "http".to_string(),
                host: "localhost".to_string(),
                port: Some(8000),
                path: "/querystring-params".to_string(),
                query_string: "param1=value1&param2=a%20b".to_string(),
            },
            querystring: vec![],
            headers: vec![],
            cookies: vec![],
            body: vec![],
            multipart: vec![],
        }
    );

    let v = doc(r#"{
    "method": "GET",
    "url": "http://localhost/custom",
    "headers": [
       {"name": "User-Agent", "value": "iPhone"},
       {"name": "Foo", "value": "Bar"}
    ],
    "cookies": [
       {"name": "theme", "value": "light"},
       {"name": "sessionToken", "value": "abc123"}
    ]
}"#);
    assert_eq!(parse_request(v).unwrap(), custom_http_request());
}

#[test]
fn import_test_parse_response() {
    let v = doc(r#"{
    "status": 200,
    "httpVersion": "HTTP/1.0",
    "headers": [
        {"name": "Content-Type", "value": "text/html; charset=utf-8" },
        {"name": "Content-Length", "value": "12" }

    ]
}"#);
    assert_eq!(
        parse_response(v).unwrap(),
        Response {
            version: Version::Http10,
            status: 200,
            headers: vec![
                Header { name: String::from("Content-Type"), value: String::from("text/html; charset=utf-8") },
                Header { name: String::from("Content-Length"), value: String::from("12") },
            ],
            body: vec![],
        }
    );
}

#[test]
fn import_parse_errors() {
    assert_eq!(parse_request(doc(r#"{ "method": "FOO" }"#)).err().unwrap(), "Invalid method <FOO>");
    assert_eq!(parse_request(doc(r#"{ "method": "GET", "url": "x" }"#)).err().unwrap(), "Invalid url <x>");
    assert!(checked_parse_request(doc(r#"{ "method": "GET", "url": "mailto:a@b.c" }"#)).is_none());
    assert_eq!(parse_response(doc(r#"{ "status": 1.5 }"#)).err().unwrap(), "expecting a integer for the status");
    assert_eq!(parse_response(doc(r#"{ "status": "x" }"#)).err().unwrap(), "expecting a number for the status");
}

#[test]
fn test_parse_cookie() {
    let c = parse_cookie(doc(
        r#"{ "name": "n", "value": "v", "domain": "d", "path": "/", "include_subdomain": true, "expired": "1970-01-01T00:01:00+00:00" }"#,
    ))
    .unwrap();
    assert_eq!(c.subdomains, true);
    assert_eq!(c.secure, false);
    assert_eq!(c.expires, Some(60));
    assert_eq!(
        parse_cookie(doc(r#"{ "name": "n", "value": "v", "domain": "d", "path": "/", "include_subdomain": true, "expired": "bad" }"#))
            .err()
            .unwrap(),
        "expecting a String (date) for the expired fieldate can be parsed"
    );
}
