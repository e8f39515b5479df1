use hurl::common::{Pos, SourceInfo, Value};
use hurl::http::header::Header;
use hurl::json_doc::JsonDoc;
use hurl::http::response::{Response, Version};
use hurl::json::{Template, TemplateElement, Whitespace};
use hurl::runner::cookie::{CookieAttribute, ResponseCookie};
use hurl::runner::query::{
    jsonpath_value, xpath_result, CookieAttribute as QueryCookieAttribute, CookieAttributeName, CookiePath, Query,
    QueryAnswer, QueryValue, XpathOutcome,
};
use hurl::runner::results::RunnerError;

fn cookie() -> ResponseCookie {
    ResponseCookie {
        name: "LSID".to_string(),
        value: "DQAAAKEaem_vYg".to_string(),
        attributes: vec![
            CookieAttribute { name: "Path".to_string(), value: Some("/accounts".to_string()) },
            CookieAttribute { name: "Expires".to_string(), value: Some("Wed, 13 Jan 2021 22:23:01 GMT".to_string()) },
            CookieAttribute { name: "Secure".to_string(), value: None },
            CookieAttribute { name: "HttpOnly".to_string(), value: None },
        ],
    }
}

#[test]
fn test_eval_cookie_attribute_name() {
    let cookie = cookie();
    assert_eq!(
        CookieAttributeName::Value("_".to_string()).eval(cookie.clone()).unwrap(),
        Value::String("DQAAAKEaem_vYg".to_string())
    );
    assert_eq!(CookieAttributeName::Domain("_".to_string()).eval(cookie.clone()), None);
}

#[test]
fn test_eval_cookie_attributes() {
    let c = cookie();
    assert_eq!(CookieAttributeName::Path("_".to_string()).eval(c.clone()), Some(Value::String("/accounts".to_string())));
    assert_eq!(CookieAttributeName::Secure("_".to_string()).eval(c.clone()), Some(Value::Unit));
    assert_eq!(CookieAttributeName::HttpOnly("_".to_string()).eval(c.clone()), Some(Value::Unit));
    assert_eq!(CookieAttributeName::SameSite("_".to_string()).eval(c.clone()), None);
    assert_eq!(CookieAttributeName::MaxAge("_".to_string()).eval(c.clone()), None);
    let mut c2 = c.clone();
    c2.attributes.push(CookieAttribute { name: "Max-Age".to_string(), value: Some("-5".to_string()) });
    assert_eq!(CookieAttributeName::MaxAge("_".to_string()).eval(c2.clone()), Some(Value::Integer(-5)));
    c2.attributes = vec![CookieAttribute { name: "Max-Age".to_string(), value: Some("x".to_string()) }];
    assert_eq!(CookieAttributeName::MaxAge("_".to_string()).eval(c2), None);
    assert_eq!(c.expires(), Some("Wed, 13 Jan 2021 22:23:01 GMT".to_string()));
}

#[test]
fn test_value_display() {
    assert_eq!(Value::Bool(true).display(), "bool <true>");
    assert_eq!(Value::Integer(-3).display(), "int <-3>");
    assert_eq!(Value::String("a".to_string()).display(), "string <a>");
    assert_eq!(Value::Float(1, 5).display(), "float <1.5>");
    assert_eq!(Value::List(vec![Value::Integer(1), Value::Null]).display(), "[int <1>, null]");
    assert_eq!(Value::Nodeset(2).display(), "nodeset of size <2>");
    assert_eq!(Value::Bytes(vec![1, 2, 3]).display(), "byte array of size <3>");
    assert_eq!(Value::Object(vec![]).display(), "object");
}

fn space(value: &str) -> Whitespace {
    Whitespace { value: value.to_string(), source_info: SourceInfo::init(0, 0, 0, 0) }
}

fn text_template(value: &str, source_info: SourceInfo) -> Template {
    Template {
        quotes: true,
        elements: vec![TemplateElement::String { value: value.to_string(), encoded: value.to_string() }],
        source_info,
    }
}

fn header(name: &str, value: &str) -> Header {
    Header { name: name.to_string(), value: value.to_string() }
}

fn hello_http_response() -> Response {
    Response {
        version: Version::Http10,
        status: 200,
        headers: vec![header("Content-Type", "text/html; charset=utf-8"), header("Content-Length", "12")],
        body: String::into_bytes(String::from("Hello World!")),
    }
}

fn bytes_http_response() -> Response {
    Response {
        version: Version::Http10,
        status: 200,
        headers: vec![header("Content-Type", "application/octet-stream"), header("Content-Length", "1")],
        body: vec![255],
    }
}

fn done(a: QueryAnswer) -> Option<Value> {
    match a {
        QueryAnswer::Done(v) => v,
        _ => panic!("the query gave no value"),
    }
}

fn xpath_users() -> Query {
    Query {
        source_info: SourceInfo::init(1, 1, 1, 13),
        value: QueryValue::Xpath { space0: space(" "), expr: text_template("//user", SourceInfo::init(0, 0, 0, 0)) },
    }
}

fn regex_name() -> Query {
    Query {
        source_info: SourceInfo::init(1, 1, 1, 26),
        value: QueryValue::Regex { space0: space(""), expr: text_template("Hello ([a-zA-Z]+)!", SourceInfo::init(1, 7, 1, 26)) },
    }
}

fn regex_invalid() -> Query {
    Query {
        source_info: SourceInfo::init(1, 1, 1, 26),
        value: QueryValue::Regex { space0: space(""), expr: text_template("???", SourceInfo::init(1, 7, 1, 10)) },
    }
}

#[test]
fn test_query_status() {
    let variables = vec![];
    let q = Query { source_info: SourceInfo::init(0, 0, 0, 0), value: QueryValue::Status {} };
    assert_eq!(done(q.eval(&variables, hello_http_response()).unwrap()).unwrap(), Value::Integer(200));
}

#[test]
fn test_header_not_found() {
    let variables = vec![];
    let q = Query {
        source_info: SourceInfo::init(0, 0, 0, 0),
        value: QueryValue::Header { space0: space(" "), name: text_template("Custom", SourceInfo::init(2, 8, 2, 14)) },
    };
    assert_eq!(done(q.eval(&variables, hello_http_response()).unwrap()), None);
}

#[test]
fn test_header() {
    let variables = vec![];
    let q = Query {
        source_info: SourceInfo::init(0, 0, 0, 0),
        value: QueryValue::Header { space0: space(" "), name: text_template("Content-Type", SourceInfo::init(1, 8, 1, 16)) },
    };
    assert_eq!(
        done(q.eval(&variables, hello_http_response()).unwrap()).unwrap(),
        Value::String(String::from("text/html; charset=utf-8"))
    );
}

#[test]
fn test_query_headers_list() {
    let variables = vec![];
    let response = Response {
        version: Version::Http11,
        status: 200,
        headers: vec![header("Vary", "a"), header("vary", "b")],
        body: vec![],
    };
    let q = Query {
        source_info: SourceInfo::init(0, 0, 0, 0),
        value: QueryValue::Header { space0: space(" "), name: text_template("VARY", SourceInfo::init(0, 0, 0, 0)) },
    };
    assert_eq!(
        done(q.eval(&variables, response).unwrap()).unwrap(),
        Value::List(vec![Value::String("a".to_string()), Value::String("b".to_string())])
    );
}

fn cookie_query(attribute: Option<CookieAttributeName>) -> Query {
    Query {
        source_info: SourceInfo::init(0, 0, 0, 0),
        value: QueryValue::Cookie {
            space0: space(""),
            expr: CookiePath {
                name: text_template("LSID", SourceInfo::init(0, 0, 0, 0)),
                attribute: attribute.map(|name| QueryCookieAttribute { space0: space(""), name, space1: space("") }),
            },
        },
    }
}

#[test]
fn test_query_cookie() {
    let variables = vec![];
    let response = Response {
        version: Version::Http10,
        status: 0,
        headers: vec![header(
            "Set-Cookie",
            "LSID=DQAAAKEaem_vYg; Path=/accounts; Expires=Wed, 13 Jan 2021 22:23:01 GMT; Secure; HttpOnly",
        )],
        body: vec![],
    };
    assert_eq!(
        done(cookie_query(None).eval(&variables, response.clone()).unwrap()).unwrap(),
        Value::String("DQAAAKEaem_vYg".to_string())
    );
    assert_eq!(
        done(cookie_query(Some(CookieAttributeName::Path("Path".to_string()))).eval(&variables, response.clone()).unwrap()).unwrap(),
        Value::String("/accounts".to_string())
    );
    assert_eq!(
        done(cookie_query(Some(CookieAttributeName::Secure("Secure".to_string()))).eval(&variables, response.clone()).unwrap()).unwrap(),
        Value::Unit
    );
    assert_eq!(
        done(cookie_query(Some(CookieAttributeName::Domain("Domain".to_string()))).eval(&variables, response).unwrap()),
        None
    );
}

#[test]
fn test_query_cookie_unparsable() {
    let variables = vec![];
    let response = Response {
        version: Version::Http10,
        status: 0,
        headers: vec![header("Set-Cookie", "no-equal-sign")],
        body: vec![],
    };
    assert!(cookie_query(None).checked_eval(&variables, response).is_none());
}

#[test]
fn test_body() {
    let variables = vec![];
    let q = Query { source_info: SourceInfo::init(0, 0, 0, 0), value: QueryValue::Body {} };
    assert_eq!(
        done(q.eval(&variables, hello_http_response()).unwrap()).unwrap(),
        Value::String(String::from("Hello World!"))
    );
    let q = Query { source_info: SourceInfo::init(1, 1, 1, 2), value: QueryValue::Body {} };
    let error = q.eval(&variables, bytes_http_response()).err().unwrap();
    assert_eq!(error.source_info, SourceInfo::init(1, 1, 1, 2));
    assert_eq!(error.inner, RunnerError::InvalidDecoding { charset: "utf-8".to_string() });
}

#[test]
fn test_body_latin1() {
    let variables = vec![];
    let response = Response {
        version: Version::Http11,
        status: 200,
        headers: vec![header("content-type", "text/plain; charset=ISO-8859-1")],
        body: vec![0x63, 0x61, 0x66, 0xe9],
    };
    let q = Query { source_info: SourceInfo::init(0, 0, 0, 0), value: QueryValue::Body {} };
    assert_eq!(done(q.eval(&variables, response).unwrap()).unwrap(), Value::String("caf\u{e9}".to_string()));
}

#[test]
fn test_query_invalid_utf8() {
    let variables = vec![];
    let http_response = Response { version: Version::Http10, status: 0, headers: vec![], body: vec![200] };
    let error = xpath_users().eval(&variables, http_response).err().unwrap();
    assert_eq!(error.source_info.start, Pos { line: 1, column: 1 });
    assert_eq!(error.inner, RunnerError::InvalidDecoding { charset: "utf-8".to_string() });
}

#[test]
fn test_query_xpath_answer() {
    let variables = vec![];
    let response = Response {
        version: Version::Http10,
        status: 200,
        headers: vec![header("content-type", "text/html")],
        body: b"<html></html>".to_vec(),
    };
    assert_eq!(
        xpath_users().eval(&variables, response).unwrap(),
        QueryAnswer::Xpath {
            expr: "//user".to_string(),
            expr_source_info: SourceInfo::init(0, 0, 0, 0),
            body: "<html></html>".to_string(),
            html: true,
        }
    );
    let error = xpath_result(SourceInfo::init(0, 0, 0, 0), SourceInfo::init(1, 7, 1, 10), XpathOutcome::Eval).err().unwrap();
    assert_eq!(error.inner, RunnerError::QueryInvalidXpathEval);
    assert_eq!(error.source_info.start, Pos { line: 1, column: 7 });
    assert_eq!(
        xpath_result(SourceInfo::init(0, 0, 0, 0), SourceInfo::init(0, 0, 0, 0), XpathOutcome::Found(Value::Nodeset(2))).unwrap(),
        Some(Value::Nodeset(2))
    );
    let error = xpath_result(SourceInfo::init(1, 1, 1, 13), SourceInfo::init(0, 0, 0, 0), XpathOutcome::InvalidXml).err().unwrap();
    assert_eq!(error.inner, RunnerError::QueryInvalidXml);
    assert_eq!(error.source_info, SourceInfo::init(1, 1, 1, 13));
}

#[test]
fn test_query_regex() {
    let variables = vec![];
    assert_eq!(
        done(regex_name().eval(&variables, hello_http_response()).unwrap()).unwrap(),
        Value::String("World".to_string())
    );
    let error = regex_invalid().eval(&variables, hello_http_response()).err().unwrap();
    assert_eq!(error.source_info, SourceInfo::init(1, 7, 1, 10));
    assert_eq!(error.inner, RunnerError::InvalidRegex());
}

#[test]
fn test_query_variable() {
    let variables = vec![("name".to_string(), Value::Integer(3))];
    let q = Query {
        source_info: SourceInfo::init(0, 0, 0, 0),
        value: QueryValue::Variable { space0: space(" "), name: text_template("name", SourceInfo::init(0, 0, 0, 0)) },
    };
    assert_eq!(done(q.clone().eval(&variables, hello_http_response()).unwrap()), Some(Value::Integer(3)));
    assert_eq!(done(q.eval(&vec![], hello_http_response()).unwrap()), None);
}

fn xml_two_users_http_response() -> Response {
    Response {
        version: Version::Http10,
        status: 200,
        headers: vec![header("Content-Type", "text/html; charset=utf-8"), header("Content-Length", "12")],
        body: String::into_bytes(
            "\n<?xml version=\"1.0\"?>\n<users>\n  <user id=\"1\">Bob</user>\n  <user id=\"2\">Bill</user>\n</users>\n".to_string(),
        ),
    }
}

fn html_http_response() -> Response {
    Response {
        version: Version::Http10,
        status: 200,
        headers: vec![header("Content-Type", "text/html; charset=utf-8")],
        body: String::into_bytes("<html><head><meta charset=\"UTF-8\"/></head><body><br></body></html>".to_string()),
    }
}

fn json_http_response() -> Response {
    Response {
        version: Version::Http10,
        status: 0,
        headers: vec![],
        body: String::into_bytes(
            "\n{\n  \"success\":false,\n  \"errors\": [\n    { \"id\": \"error1\"},\n    {\"id\": \"error2\"}\n  ]\n}\n".to_string(),
        ),
    }
}

/// The expression and body that an XPath query hands to the engine.
fn xpath_input(q: Query, response: Response) -> (String, SourceInfo, String, bool) {
    match q.eval(&vec![], response).unwrap() {
        QueryAnswer::Xpath { expr, expr_source_info, body, html } => (expr, expr_source_info, body, html),
        _ => panic!("not an XPath query"),
    }
}

/// The value of a JSON document, numbers with a fraction or an exponent as floats.
fn value_of(d: JsonDoc) -> Value {
    match d {
        JsonDoc::Null => Value::Null,
        JsonDoc::Bool(b) => Value::Bool(b),
        JsonDoc::Number(t, _) => match t.parse::<i64>() {
            Ok(i) => Value::Integer(i),
            Err(_) => {
                let f: f64 = t.parse().unwrap();
                let integer = if f < 0.0 { f.ceil() as i64 } else { f.floor() as i64 };
                let decimal = (f.abs().fract() * 1_000_000_000_000_000_000.0).round() as u64;
                Value::Float(integer, decimal)
            }
        },
        JsonDoc::String(s) => Value::String(s),
        JsonDoc::Array(a) => Value::List(a.into_iter().map(value_of).collect()),
        JsonDoc::Object(m) => Value::Object(m.into_iter().map(|(k, v)| (k, value_of(v))).collect()),
    }
}

/// The value of a JSONPath query on a response.
fn jsonpath_eval(q: Query, response: Response) -> Option<Value> {
    match q.eval(&vec![], response).unwrap() {
        QueryAnswer::Json(docs) => jsonpath_value(docs.into_iter().map(value_of).collect()),
        _ => panic!("not a JSONPath query"),
    }
}

fn jsonpath_query(expr: &str, expr_source_info: SourceInfo) -> Query {
    Query {
        source_info: SourceInfo::init(1, 1, 1, 19),
        value: QueryValue::Jsonpath { space0: space(""), expr: text_template(expr, expr_source_info) },
    }
}

#[test]
fn test_query_xpath_error_eval() {
    let query = Query {
        source_info: SourceInfo::init(0, 0, 0, 0),
        value: QueryValue::Xpath { space0: space(" "), expr: text_template("^^^", SourceInfo::init(1, 7, 1, 10)) },
    };
    let (expr, expr_source_info, _, _) = xpath_input(query.clone(), xml_two_users_http_response());
    assert_eq!(expr, "^^^");
    // the XPath engine cannot evaluate `^^^`
    let error = xpath_result(query.source_info, expr_source_info, XpathOutcome::Eval).err().unwrap();
    assert_eq!(error.inner, RunnerError::QueryInvalidXpathEval);
    assert_eq!(error.source_info.start, Pos { line: 1, column: 7 });
}

#[test]
fn test_query_xpath() {
    let (expr, _, body, html) = xpath_input(xpath_users(), xml_two_users_http_response());
    assert_eq!(expr, "//user");
    assert!(body.contains("<user id=\"2\">Bill</user>"));
    assert!(!html);
    // what the XPath engine gives for `//user` and `count(//user)` on the two users
    assert_eq!(
        xpath_result(SourceInfo::init(1, 1, 1, 13), SourceInfo::init(0, 0, 0, 0), XpathOutcome::Found(Value::Nodeset(2)))
            .unwrap()
            .unwrap(),
        Value::Nodeset(2)
    );
    assert_eq!(
        xpath_result(SourceInfo::init(1, 1, 1, 13), SourceInfo::init(0, 0, 0, 0), XpathOutcome::Found(Value::Float(2, 0)))
            .unwrap()
            .unwrap(),
        Value::Float(2, 0)
    );
}

#[test]
fn test_query_xpath_with_html() {
    let query = Query {
        source_info: SourceInfo::init(1, 1, 1, 13),
        value: QueryValue::Xpath {
            space0: space(" "),
            expr: text_template("normalize-space(/html/head/meta/@charset)", SourceInfo::init(0, 0, 0, 0)),
        },
    };
    let (expr, _, _, _) = xpath_input(query, html_http_response());
    assert_eq!(expr, "normalize-space(/html/head/meta/@charset)");
    // what the XPath engine gives on the HTML page
    assert_eq!(
        xpath_result(SourceInfo::init(1, 1, 1, 13), SourceInfo::init(0, 0, 0, 0), XpathOutcome::Found(Value::String("UTF-8".to_string())))
            .unwrap()
            .unwrap(),
        Value::String(String::from("UTF-8"))
    );
}

#[test]
fn test_query_jsonpath_invalid_expression() {
    let query = Query {
        source_info: SourceInfo::init(0, 0, 0, 0),
        value: QueryValue::Jsonpath { space0: space(""), expr: text_template("xxx", SourceInfo::init(1, 10, 1, 13)) },
    };
    let error = query.eval(&vec![], json_http_response()).err().unwrap();
    assert_eq!(error.source_info.start, Pos { line: 1, column: 10 });
    assert_eq!(error.inner, RunnerError::QueryInvalidJsonpathExpression { value: "xxx".to_string() });
}

#[test]
fn test_query_invalid_json() {
    let http_response = Response { version: Version::Http10, status: 0, headers: vec![], body: String::into_bytes(String::from("xxx")) };
    let error = jsonpath_query("$.success", SourceInfo::init(1, 10, 1, 19)).eval(&vec![], http_response).err().unwrap();
    assert_eq!(error.source_info.start, Pos { line: 1, column: 1 });
    assert_eq!(error.inner, RunnerError::QueryInvalidJson);
}

#[test]
fn test_query_json_not_found() {
    let http_response = Response { version: Version::Http10, status: 0, headers: vec![], body: String::into_bytes(String::from("{}")) };
    assert_eq!(jsonpath_eval(jsonpath_query("$.success", SourceInfo::init(1, 10, 1, 19)), http_response), None);
}

#[test]
fn test_query_json() {
    assert_eq!(
        jsonpath_eval(jsonpath_query("$.success", SourceInfo::init(1, 10, 1, 19)), json_http_response()).unwrap(),
        Value::Bool(false)
    );
    assert_eq!(
        jsonpath_eval(jsonpath_query("$.errors", SourceInfo::init(1, 10, 1, 18)), json_http_response()).unwrap(),
        Value::List(vec![
            Value::Object(vec![(String::from("id"), Value::String(String::from("error1")))]),
            Value::Object(vec![(String::from("id"), Value::String(String::from("error2")))]),
        ])
    );
}

#[test]
fn test_query_json_values() {
    let body = r#"{"a": [1, 2.5, -3], "b": {"c": "x"}}"#;
    let response = || Response { version: Version::Http10, status: 0, headers: vec![], body: body.as_bytes().to_vec() };
    assert_eq!(
        jsonpath_eval(jsonpath_query("$.a", SourceInfo::init(0, 0, 0, 0)), response()).unwrap(),
        Value::List(vec![Value::Integer(1), Value::Float(2, 500000000000000000), Value::Integer(-3)])
    );
    assert_eq!(
        jsonpath_eval(jsonpath_query("$..c", SourceInfo::init(0, 0, 0, 0)), response()).unwrap(),
        Value::String("x".to_string())
    );
    assert_eq!(
        jsonpath_eval(jsonpath_query("$.a[1]", SourceInfo::init(0, 0, 0, 0)), response()).unwrap(),
        Value::Float(2, 500000000000000000)
    );
}
