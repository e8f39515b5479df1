use hurl::http::header::Header;
use hurl::http::request::Method;
use hurl::http::response::{Response, Version};
use hurl::runner::text::{body_text, bytes_text, is_text, substring};

#[test]
fn test_is_text() {
    assert_eq!(is_text("application/json"), true);
    assert_eq!(is_text("application/json;charset=utf-8"), true);
}

#[test]
fn test_substring() {
    assert_eq!(substring("", 0, 0), "");
    assert_eq!(substring("hello world!", 0, 5), "hello");
    assert_eq!(substring("hello world!", 0, 15), "hello world!");
}

#[test]
fn test_substring_chars() {
    assert_eq!(substring("héllo", 1, 2), "él");
    assert_eq!(substring("abc", 5, 2), "");
    assert_eq!(is_text("image/png"), false);
}

#[test]
fn test_body_text() {
    assert_eq!(body_text(vec![], None), "");
    assert_eq!(body_text(vec![1, 255], None), "[1, 255]");
    assert_eq!(body_text(b"hi".to_vec(), Some("text/html".to_string())), "hi");
    assert_eq!(body_text(vec![255], Some("text/html".to_string())), "[255]");
    assert_eq!(body_text(b"hi".to_vec(), Some("image/png".to_string())), "[104, 105]");
    assert_eq!(bytes_text(&vec![]), "[]");
}

#[test]
fn test_to_text() {
    assert_eq!(Method::Delete.to_text(), "DELETE");
    assert_eq!(Version::Http2.to_text(), "2");
    let h = Header { name: "A".to_string(), value: "b".to_string() };
    assert_eq!(h.to_text(), "A: b\n");
    let r = Response {
        version: Version::Http11,
        status: 404,
        headers: vec![
            Header { name: "content-type".to_string(), value: "text/html".to_string() },
            h,
        ],
        body: b"Not found here".to_vec(),
    };
    assert_eq!(r.to_text(9), "HTTP/1.1 404\ncontent-type: text/html\nA: b\nNot found");
    let r = Response { version: Version::Http10, status: 200, headers: vec![], body: vec![] };
    assert_eq!(r.to_text(9), "HTTP/1.0 200\n");
}
