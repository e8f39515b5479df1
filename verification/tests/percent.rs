use hurl::http::header::Header;
use hurl::http::request::{Param, Request, Url};
use hurl::percent::encode_fragment;

fn form_request(body: &str) -> Request {
    Request {
        method: hurl::http::request::Method::Post,
        url: Url {
            scheme: "http".to_string(),
            host: "localhost".to_string(),
            port: None,
            path: "/form".to_string(),
            query_string: "".to_string(),
        },
        querystring: vec![],
        headers: vec![Header {
            name: "Content-Type".to_string(),
            value: "application/x-www-form-urlencoded".to_string(),
        }],
        cookies: vec![],
        body: body.as_bytes().to_vec(),
        multipart: vec![],
    }
}

#[test]
fn test_encode_fragment() {
    assert_eq!(encode_fragment("a b/é"), "a%20b%2F%C3%A9");
    assert_eq!(encode_fragment("abc-_.~"), "abc-_.~");
    assert_eq!(encode_fragment("100%"), "100%25");
}

#[test]
fn test_form_body_is_percent_decoded() {
    assert_eq!(
        form_request("a=1%202&b=%2f&c=%zz").form_params().unwrap(),
        vec![
            Param { name: "a".to_string(), value: "1 2".to_string() },
            Param { name: "b".to_string(), value: "/".to_string() },
            Param { name: "c".to_string(), value: "%zz".to_string() },
        ]
    );
}

#[test]
fn test_fragment_round_trip() {
    for s in ["a b/é", "100%", "x:y?z", ""] {
        let body = format!("p={}", encode_fragment(s));
        assert_eq!(
            form_request(&body).form_params().unwrap(),
            vec![Param { name: "p".to_string(), value: s.to_string() }]
        );
    }
}
