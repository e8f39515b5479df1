use hurl::http::cookie::ResponseCookie;
use hurl::http::header::{self, get_header_values as core_get_header_values};
use hurl::http::libcurl::{self, Method, RequestCookie, Version};
use hurl::http::request::{has_header, Param, Request as HttpRequest, RequestEncoding, Url};
use hurl::http::response::{Encoding, Response, Version as ResponseVersion};

#[test]
fn get_header_values() {
    let response = libcurl::Response {
        version: Version::Http10,
        status: 200,
        headers: vec![libcurl::Header { name: "Content-Length".to_string(), value: "12".to_string() }],
        body: vec![],
    };
    assert_eq!(response.get_header_values("Content-Length".to_string()), vec!["12".to_string()]);
    assert!(response.get_header_values("Unknown".to_string()).is_empty());
}

fn header(name: &str, value: &str) -> header::Header {
    header::Header { name: name.to_string(), value: value.to_string() }
}

fn hello_http_response() -> Response {
    Response {
        version: ResponseVersion::Http10,
        status: 200,
        headers: vec![
            header("Content-Type", "text/html; charset=utf-8"),
            header("Content-Length", "12"),
        ],
        body: String::into_bytes(String::from("Hello World!")),
    }
}

#[test]
fn test_header_values_several() {
    let headers = vec![header("A", "1"), header("B", "2"), header("A", "3")];
    assert_eq!(libcurl::get_header_values(vec![], "A".to_string()), Vec::<String>::new());
    assert_eq!(core_get_header_values(headers, "A".to_string()), vec!["1".to_string(), "3".to_string()]);
    assert_eq!(header("Host", "x").to_string(), "Host: x");
}

#[test]
fn test_response_get_header() {
    let r = hello_http_response();
    assert_eq!(r.get_header("content-type", true), Vec::<String>::new());
    assert_eq!(r.get_header("content-type", false), vec!["text/html; charset=utf-8".to_string()]);
    assert_eq!(r.get_header("Content-Length", true), vec!["12".to_string()]);
}

#[test]
fn test_response_content_type() {
    let mut r = hello_http_response();
    assert_eq!(r.content_type(), None);
    assert_eq!(r.encoding(), Encoding::Utf8);
    assert!(!r.is_html());
    assert!(!r.has_utf8_body());
    r.headers = vec![header("content-type", "text/html; charset=utf-8")];
    assert_eq!(r.content_type(), Some("text/html; charset=utf-8".to_string()));
    assert!(r.is_html());
    assert!(r.has_utf8_body());
    r.headers = vec![header("content-type", "text/plain; charset=ISO-8859-1")];
    assert_eq!(r.encoding(), Encoding::Latin1);
    assert_eq!(ResponseVersion::Http11.to_string(), "1.1");
}

#[test]
fn test_response_cookies() {
    let mut r = hello_http_response();
    r.headers.push(header("Set-Cookie", "LSID=DQAAAK; Path=/accounts; Secure; HttpOnly"));
    r.headers.push(header("set-cookie", "HSID=AYQEVn; Domain=foo.com; Max-Age=20"));
    let cookies = r.cookies();
    assert_eq!(cookies.len(), 2);
    assert_eq!(cookies[0].name, "LSID");
    assert_eq!(cookies[0].path, Some("/accounts".to_string()));
    assert_eq!(cookies[0].secure, Some(true));
    assert_eq!(cookies[1].domain, Some("foo.com".to_string()));
    assert_eq!(cookies[1].max_age, Some(20));
    assert_eq!(r.get_cookie("HSID").unwrap().value, "AYQEVn");
    assert_eq!(r.get_cookie("XX"), None);
    assert_eq!(r.checked_cookies().unwrap().len(), 2);
    r.headers.push(header("Set-Cookie", "garbage"));
    assert!(!r.set_cookies_parse());
    assert_eq!(r.checked_cookies(), None);
}

fn response_cookie(name: &str, value: &str, domain: Option<&str>) -> ResponseCookie {
    ResponseCookie {
        name: name.to_string(),
        value: value.to_string(),
        max_age: None,
        domain: domain.map(|d| d.to_string()),
        path: None,
        secure: None,
        http_only: None,
        expires: None,
        same_site: None,
    }
}

fn custom_http_request() -> HttpRequest {
    HttpRequest {
        method: hurl::http::request::Method::Get,
        url: Url {
            scheme: "http".to_string(),
            host: "localhost".to_string(),
            port: None,
            path: "/custom".to_string(),
            query_string: "".to_string(),
        },
        querystring: vec![],
        headers: vec![header("User-Agent", "iPhone"), header("Foo", "Bar")],
        cookies: vec![
            response_cookie("theme", "light", None),
            response_cookie("sessionToken", "abc123", Some("localhost")),
        ],
        body: vec![],
        multipart: vec![],
    }
}

#[test]
fn test_request_accessors() {
    let r = custom_http_request();
    assert_eq!(r.clone().host(), "localhost");
    assert_eq!(r.clone().content_type(), None);
    assert_eq!(r.get_header("foo", false), Some("Bar".to_string()));
    assert_eq!(r.get_header("foo", true), None);
    assert_eq!(r.encoding(), Encoding::Utf8);
    assert_eq!(r.clone().get_cookie("theme".to_string()).unwrap().value, "light");
    assert_eq!(r.clone().get_cookie("none".to_string()), None);
    assert!(has_header(&r.headers, "Foo".to_string()));
    assert!(!has_header(&r.headers, "foo".to_string()));
    assert_eq!(RequestEncoding::Latin1.to_string(), "iso8859-1");
}

#[test]
fn test_add_session_cookies() {
    let mut r = custom_http_request();
    r.add_session_cookies(vec![
        response_cookie("sessionToken", "zzz", Some("localhost")),
        response_cookie("theme", "dark", Some("localhost")),
        response_cookie("new", "1", Some("example.org")),
        response_cookie("new", "2", Some("example.org")),
    ]);
    let names: Vec<(String, String)> = r.cookies.iter().map(|c| (c.name.clone(), c.value.clone())).collect();
    assert_eq!(
        names,
        vec![
            ("theme".to_string(), "light".to_string()),
            ("sessionToken".to_string(), "abc123".to_string()),
            ("theme".to_string(), "dark".to_string()),
            ("new".to_string(), "1".to_string()),
        ]
    );
}

#[test]
fn test_param_parse() {
    let p = Param::parse("a=b=c");
    assert_eq!((p.name.as_str(), p.value.as_str()), ("a", "b=c"));
    let p = Param::parse("abc");
    assert_eq!((p.name.as_str(), p.value.as_str()), ("abc", ""));
    let p = Param::parse("=x");
    assert_eq!((p.name.as_str(), p.value.as_str()), ("", "x"));
}

#[test]
fn test_libcurl_display() {
    assert_eq!(Method::Patch.to_string(), "PATCH");
    assert_eq!(RequestCookie { name: "a".to_string(), value: "b".to_string() }.to_string(), "a=b");
}

fn hello_http_request() -> HttpRequest {
    HttpRequest {
        method: hurl::http::request::Method::Get,
        url: Url {
            scheme: "http".to_string(),
            host: "localhost".to_string(),
            port: Some(8000),
            path: "/hello".to_string(),
            query_string: "".to_string(),
        },
        querystring: vec![],
        headers: vec![],
        cookies: vec![],
        body: vec![],
        multipart: vec![],
    }
}

fn query_http_request() -> HttpRequest {
    HttpRequest {
        method: hurl::http::request::Method::Get,
        url: Url {
            scheme: "http".to_string(),
            host: "localhost".to_string(),
            port: Some(8000),
            path: "/querystring-params".to_string(),
            query_string: "".to_string(),
        },
        querystring: vec![
            Param { name: String::from("param1"), value: String::from("value1") },
            Param { name: String::from("param2"), value: String::from("a b") },
        ],
        headers: vec![],
        cookies: vec![],
        body: vec![],
        multipart: vec![],
    }
}

fn form_http_request() -> HttpRequest {
    HttpRequest {
        method: hurl::http::request::Method::Post,
        url: Url {
            scheme: "http".to_string(),
            host: "localhost".to_string(),
            port: None,
            path: "/form-params".to_string(),
            query_string: "".to_string(),
        },
        querystring: vec![],
        headers: vec![header("Content-Type", "application/x-www-form-urlencoded")],
        cookies: vec![],
        body: "param1=value1&param2=&param3=a%3db&param4=a%253db".to_string().into_bytes(),
        multipart: vec![],
    }
}

fn custom_cookie_http_request() -> HttpRequest {
    let mut r = custom_http_request();
    r.cookies = vec![response_cookie("theme", "light", None), response_cookie("sessionToken", "abc123", None)];
    r
}

#[test]
fn request_test_headers() {
    let version = hurl::http::request::version();
    assert_eq!(
        hello_http_request().headers(),
        vec![
            header::Header { name: String::from("User-Agent"), value: format!("hurl/{}", version) },
            header::Header { name: String::from("Host"), value: String::from("localhost") }
        ]
    );

    assert_eq!(
        custom_cookie_http_request().headers(),
        vec![
            header::Header { name: String::from("User-Agent"), value: String::from("iPhone") },
            header::Header { name: String::from("Foo"), value: String::from("Bar") },
            header::Header { name: String::from("Host"), value: String::from("localhost") },
            header::Header { name: String::from("Cookie"), value: String::from("theme=light; sessionToken=abc123") },
        ]
    );
}

#[test]
pub fn test_url() {
    assert_eq!(hello_http_request().url(), String::from("http://localhost:8000/hello"));
    assert_eq!(
        query_http_request().url(),
        String::from("http://localhost:8000/querystring-params?param1=value1&param2=a%20b")
    );
}

#[test]
pub fn test_form_params() {
    assert_eq!(hello_http_request().form_params(), None);
    assert_eq!(
        form_http_request().form_params().unwrap(),
        vec![
            Param { name: String::from("param1"), value: String::from("value1") },
            Param { name: String::from("param2"), value: String::from("") },
            Param { name: String::from("param3"), value: String::from("a=b") },
            Param { name: String::from("param4"), value: String::from("a%3db") },
        ]
    );
}

#[test]
pub fn test_url_quirks() {
    let mut r = query_http_request();
    r.url.query_string = "x=1".to_string();
    r.url.port = None;
    r.querystring = vec![Param { name: String::from("p"), value: String::from("é/&") }];
    assert_eq!(r.url(), "http://localhost/querystring-params?x=1&&p=%C3%A9%2F&");
}

#[test]
pub fn test_request_to_text() {
    let r = form_http_request();
    let version = hurl::http::request::version();
    assert_eq!(
        r.to_text(),
        format!(
            "POST http://localhost/form-params\nContent-Type: application/x-www-form-urlencoded\nUser-Agent: hurl/{}\nHost: localhost\n\n[Form Params]\nparam1=value1\nparam2=\nparam3=a=b\nparam4=a%3db\n",
            version
        )
    );
    let mut r = hello_http_request();
    r.body = b"hi".to_vec();
    r.headers = vec![header("Content-Type", "text/html")];
    assert_eq!(r.to_text(), format!("GET http://localhost:8000/hello\nContent-Type: text/html\nUser-Agent: hurl/{}\nHost: localhost\n\nhi\n", version));
}
