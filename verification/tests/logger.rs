use hurl::common::SourceInfo;
use hurl::format_error::Error;
use hurl::logger::Logger;

fn logger(verbose: bool, color: bool) -> Logger {
    Logger {
        filename: Some("spaces.hurl".to_string()),
        lines: vec!["GET\thttp://localhost:8000/hello".to_string()],
        verbose,
        color,
    }
}

#[test]
fn test_logger_messages() {
    let l = logger(false, false);
    assert_eq!(l.error_message("no file".to_string()), "error: no file");
    assert_eq!(l.warning_message("careful".to_string()), "warning: careful");
    assert_eq!(l.verbose("detail"), None);
    let l = logger(true, true);
    assert_eq!(l.error_message("no file".to_string()), "\x1b[1;31merror\x1b[0m: no file");
    assert_eq!(l.warning_message("careful".to_string()), "\x1b[1;33mwarning\x1b[0m: careful");
    assert_eq!(l.verbose("detail"), Some("* detail".to_string()));
    assert_eq!(l.send("GET /".to_string()), Some("> GET /".to_string()));
    assert_eq!(l.receive("HTTP/1.1 200".to_string()), Some("< HTTP/1.1 200".to_string()));
}

#[test]
fn test_logger_error() {
    let l = logger(false, false);
    let error = Error {
        source_info: SourceInfo::init(1, 4, 1, 5),
        description: String::from("One space"),
        fixme: String::from("Use only one space"),
        lines: vec![],
        filename: String::new(),
        warning: true,
        color: true,
    };
    assert_eq!(
        l.error(&error),
        "warning: One space\n  --> spaces.hurl:1:4\n   |\n 1 | GET    http://localhost:8000/hello\n   |    ^ Use only one space\n   |\n\n"
    );
    let l = Logger { filename: None, ..logger(false, false) };
    let error = Error {
        source_info: SourceInfo::init(1, 0, 1, 0),
        description: String::from("Assert failure"),
        fixme: String::from("actual:   1\nexpected: 2"),
        lines: vec![],
        filename: String::new(),
        warning: false,
        color: false,
    };
    assert_eq!(
        l.error(&error),
        "error: Assert failure\n   |\n 1 | GET    http://localhost:8000/hello\n   |   actual:   1\n   |   expected: 2\n   |\n\n"
    );
}

#[test]
fn test_logger_report_is_format() {
    let lines = vec!["GET\thttp://localhost:8000/hello".to_string()];
    let error = Error {
        source_info: SourceInfo::init(1, 4, 1, 5),
        description: String::from("One space"),
        fixme: String::from("Use only one space"),
        lines: lines.clone(),
        filename: "spaces.hurl".to_string(),
        warning: true,
        color: true,
    };
    let l = Logger { filename: Some("spaces.hurl".to_string()), lines, verbose: false, color: true };
    assert_eq!(l.error(&error), format!("{}\n", error.clone().format()));
}
