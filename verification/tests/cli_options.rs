use hurl::cli_options::{
    cookie_file_text, cookies_from_lines, cookies_from_text, cookies_output_file, output_color, proxy, redirect,
    validate_proxy,
};
use hurl::http::client::Redirect;
use hurl::http::cookie::Cookie;

#[test]
fn test_output_color() {
    assert_eq!(output_color(true, false, true), true);
    assert_eq!(output_color(false, false, true), true);
}

#[test]
fn options_test_redirect() {
    assert_eq!(redirect(false, "10").unwrap(), Redirect::NoRedirect);
    assert_eq!(redirect(true, "10").unwrap(), Redirect::Limited(10));
    assert_eq!(redirect(true, "-1").unwrap(), Redirect::Unlimited);
    assert_eq!(redirect(true, "A").err().unwrap().message, "Invalid value for option --max-redirs");
}

#[test]
fn test_http_proxy() {
    assert_eq!(proxy(None, None).unwrap(), None);
    assert_eq!(proxy(Some("http://localhost:8001"), None).unwrap(), Some("http://localhost:8001".to_string()));
    assert_eq!(
        proxy(Some("http://localhost:8001"), Some("http://localhost:8002".to_string())).unwrap(),
        Some("http://localhost:8001".to_string())
    );
    assert_eq!(proxy(Some(""), Some("http://localhost:8002".to_string())).unwrap(), None);
    assert_eq!(proxy(None, Some("http://localhost:8002".to_string())).unwrap(), Some("http://localhost:8002".to_string()));
}

#[test]
fn test_output_color_refused() {
    assert_eq!(output_color(false, true, true), false);
    assert_eq!(output_color(true, true, false), true);
    assert_eq!(output_color(false, false, false), false);
}

#[test]
fn test_redirect_numbers() {
    assert_eq!(redirect(true, "+3").unwrap(), Redirect::Limited(3));
    assert!(redirect(true, "").is_err());
    assert!(redirect(true, "-2").is_err());
    assert!(redirect(true, "99999999999999999999999").is_err());
}

#[test]
fn test_validate_proxy() {
    assert_eq!(validate_proxy("localhost:3128".to_string()).unwrap(), "http://localhost:3128");
    assert_eq!(proxy(None, Some("".to_string())).unwrap(), None);
    assert_eq!(validate_proxy("http://a b".to_string()).err().unwrap().message, "Invalid proxy url <http://a b>");
}

#[test]
fn test_cookies_output_file() {
    assert_eq!(cookies_output_file("c.txt".to_string(), 1).unwrap(), "c.txt");
    assert_eq!(cookies_output_file("c.txt".to_string(), 2).err().unwrap().message, "Only save cookies for a unique session");
}

#[test]
fn test_cookies_from_text() {
    let content = "# Netscape HTTP Cookie File\n\nlocalhost\tFALSE\t/\tFALSE\t0\tcookie1\tvalueA\r\nlocalhost\tTRUE\t/a\tTRUE\t0\tcookie2\tvalueB\n";
    let cookies = cookies_from_text(content).unwrap();
    assert_eq!(cookies.len(), 2);
    assert_eq!(cookies[0].name, "cookie1");
    assert_eq!(cookies[0].value, "valueA");
    assert_eq!(cookies[0].subdomains, false);
    assert_eq!(cookies[1].name, "cookie2");
    assert_eq!(cookies[1].path, "/a");
    assert_eq!(cookies[1].secure, true);
}

#[test]
fn test_cookies_from_text_error() {
    let content = "localhost\tFALSE\t/\tFALSE\t0\tcookie1\tvalueA\nbad line\nlocalhost";
    let error = cookies_from_text(content).err().unwrap();
    assert_eq!(error.message, "Cookie bad line can not be parsed");
}

#[test]
fn test_cookies_from_lines_skips_comments() {
    let lines = vec!["#comment".to_string(), "".to_string()];
    assert_eq!(cookies_from_lines(&lines).unwrap().len(), 0);
}

fn jar_cookie(name: &str, value: &str, domain: &str, expires: Option<i64>) -> Cookie {
    Cookie {
        name: name.to_string(),
        value: value.to_string(),
        domain: domain.to_string(),
        path: "/".to_string(),
        subdomains: true,
        secure: false,
        expires,
    }
}

#[test]
fn test_cookie_file_text() {
    let cookies = vec![jar_cookie("a", "1", "localhost", None), jar_cookie("b", "", "example.org", Some(1700000000))];
    assert_eq!(
        cookie_file_text(&cookies),
        "# Netscape HTTP Cookie File\n# This file was generated by hurl\n\nlocalhost\tTRUE\t/\tFALSE\t0\ta\t1\nexample.org\tTRUE\t/\tFALSE\t1700000000\tb\t\n"
    );
}

#[test]
fn test_cookie_file_round_trip() {
    let cookies = vec![jar_cookie("a", "1", "localhost", None), jar_cookie("b", "", "example.org", Some(1700000000))];
    let read = cookies_from_text(&cookie_file_text(&cookies)).unwrap();
    assert_eq!(read, vec![jar_cookie("a", "1", "localhost", None), jar_cookie("b", "", "example.org", None)]);
    assert_eq!(cookies_from_text(&cookie_file_text(&vec![])).unwrap(), vec![]);
}
