use hurl::color::TerminalColor;
use hurl::common::SourceInfo;
use hurl::format_error::Error;

#[test]
fn test_basic() {
    let filename = String::from("integration/hurl_error_lint/spaces.hurl");
    let lines = vec![String::from("GET\thttp://localhost:8000/hello")];
    let error = Error {
        source_info: SourceInfo::init(1, 4, 1, 5),
        description: String::from("One space"),
        fixme: String::from("Use only one space"),
        lines,
        filename,
        warning: true,
        color: false,
    };
    assert_eq!(
        error.format(),
        String::from(
            r#"warning: One space
  --> integration/hurl_error_lint/spaces.hurl:1:4
   |
 1 | GET    http://localhost:8000/hello
   |    ^ Use only one space
   |
"#
        )
    );
}

#[test]
fn test_with_tabs() {
    let filename = String::from("integration/hurl_error_lint/spaces.hurl");
    let lines = vec![String::from("GET\thttp://localhost:8000/hello ")];
    let error = Error {
        source_info: SourceInfo::init(1, 32, 1, 32),
        description: String::from("Unnecessary space"),
        fixme: String::from("Remove space"),
        lines,
        filename,
        warning: true,
        color: false,
    };
    assert_eq!(
        error.format(),
        "warning: Unnecessary space\n  --> integration/hurl_error_lint/spaces.hurl:1:32\n   |\n 1 | GET    http://localhost:8000/hello \n   |                                   ^ Remove space\n   |\n"
    );
}

#[test]
fn test_end_of_file() {
    let filename = String::from("hurl_error_parser/json_unexpected_eof.hurl");
    let lines = vec![
        String::from("POST http://localhost:8000/data\n"),
        String::from("{ \"name\":\n"),
        String::from(""),
    ];
    let error = Error {
        source_info: SourceInfo::init(3, 1, 3, 1),
        description: String::from("Parsing json"),
        fixme: String::from("json error"),
        lines,
        filename,
        warning: true,
        color: false,
    };
    assert_eq!(
        error.format(),
        String::from(
            r#"warning: Parsing json
  --> hurl_error_parser/json_unexpected_eof.hurl:3:1
   |
 3 |
   | ^ json error
   |
"#
        )
    );
}

#[test]
fn test_assert_error() {
    let filename = String::from("hurl_error_parser/json_unexpected_eof.hurl");
    let lines = vec![
        String::from("...\n"),
        String::from("[Asserts]\n"),
        String::from("jsonpath \"$.message\" startsWith \"hello\""),
    ];
    let _error = Error {
        source_info: SourceInfo::init(3, 0, 3, 0),
        description: String::from("Assert Error"),
        fixme: String::from("actual:   string <tutu>\nexpected: starts with string <toto>"),
        lines,
        filename,
        warning: false,
        color: false,
    };
}

#[test]
fn test_assert_error_report() {
    let error = Error {
        source_info: SourceInfo::init(1, 0, 1, 0),
        description: String::from("Assert Error"),
        fixme: String::from("actual:   string <tutu>\r\nexpected: starts with string <toto>"),
        lines: vec![String::from("jsonpath \"$.message\" startsWith \"hello\"")],
        filename: String::from("-"),
        warning: false,
        color: true,
    };
    assert_eq!(
        error.format(),
        "\x1b[1;31merror\x1b[0m: Assert Error\n   |\n 1 | jsonpath \"$.message\" startsWith \"hello\"\n   |   actual:   string <tutu>\n   |   expected: starts with string <toto>\n   |\n"
    );
    assert_eq!(TerminalColor::Yellow.format("w".to_string()), "\x1b[1;33mw\x1b[0m");
}

#[test]
fn test_wide_mark() {
    let lines: Vec<String> = (0..120).map(|i| format!("line{}", i)).collect();
    let error = Error {
        source_info: SourceInfo::init(105, 2, 105, 5),
        description: String::from("d"),
        fixme: String::from("f"),
        lines,
        filename: String::from("a.hurl"),
        warning: true,
        color: false,
    };
    assert_eq!(
        error.format(),
        "warning: d\n   --> a.hurl:105:2\n    |\n105 | line104\n    |  ^^^ f\n    |\n"
    );
}
