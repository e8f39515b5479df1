use hurl::curl::{has_content_type, parse, parse_cookie_option, HurlOption};

#[test]
fn test_hello() {
    let hurl_str = r#"GET http://locahost:8000/hello
"#;
    assert_eq!(parse("curl http://locahost:8000/hello").unwrap(), hurl_str);
}

#[test]
fn mod_test_headers() {
    let hurl_str = r#"GET http://localhost:8000/custom-headers
Fruit:Raspberry
Fruit: Banana
Test: '
"#;
    assert_eq!(
        parse("curl http://localhost:8000/custom-headers -H 'Fruit:Raspberry' -H 'Fruit: Banana' -H $'Test: \\''").unwrap(),
        hurl_str
    );
    assert_eq!(
        parse("curl http://localhost:8000/custom-headers   --header Fruit:Raspberry -H 'Fruit: Banana' -H $'Test: \\''  ").unwrap(),
        hurl_str
    );
}

#[test]
fn test_post_format_params() {
    let hurl_str = r#"POST http://localhost:3000/data
Content-Type: application/x-www-form-urlencoded
```param1=value1&param2=value2```
"#;
    assert_eq!(parse("curl http://localhost:3000/data -d 'param1=value1&param2=value2'").unwrap(), hurl_str);
    assert_eq!(
        parse("curl -X POST http://localhost:3000/data -H 'Content-Type: application/x-www-form-urlencoded' --data 'param1=value1&param2=value2'").unwrap(),
        hurl_str
    );
}

#[test]
fn test_post_json() {
    let hurl_str = r#"POST http://localhost:3000/data
Content-Type: application/json
```{"key1":"value1", "key2":"value2"}```
"#;
    assert_eq!(
        parse(r#"curl -d '{"key1":"value1", "key2":"value2"}' -H 'Content-Type: application/json' -X POST http://localhost:3000/data"#).unwrap(),
        hurl_str
    );
}

#[test]
fn test_post_file() {
    let hurl_str = r#"POST http://example.com/
file, filename;
"#;
    assert_eq!(parse(r#"curl --data @filename http://example.com/"#).unwrap(), hurl_str);
}

#[test]
fn mod_test_redirect() {
    let hurl_str = r#"GET http://localhost:8000/redirect-absolute
[Options]
location: true
"#;
    assert_eq!(parse(r#"curl -L http://localhost:8000/redirect-absolute"#).unwrap(), hurl_str);
}

#[test]
fn test_insecure() {
    let hurl_str = r#"GET https://localhost:8001/hello
[Options]
insecure: true
"#;
    assert_eq!(parse(r#"curl -k https://localhost:8001/hello"#).unwrap(), hurl_str);
}

#[test]
fn test_max_redirects() {
    let hurl_str = r#"GET https://localhost:8001/hello
[Options]
max-redirs: 10
"#;
    assert_eq!(parse(r#"curl https://localhost:8001/hello --max-redirs 10"#).unwrap(), hurl_str);
}

#[test]
fn test_curl_forms() {
    assert_eq!(
        parse("curl -kL --compressed --max-redirs=-1 --retry 3 example.com").unwrap(),
        "GET https://example.com\n[Options]\ncompressed: true\nlocation: true\ninsecure: true\nmax-redirs: -1\nretry: 3\n"
    );
    assert_eq!(parse("curl -XPUT --url http://a").unwrap(), "PUT http://a\n");
}

#[test]
fn test_curl_errors() {
    assert_eq!(parse("curl http://a -H Fruit").err().unwrap(), "invalid value 'Fruit' for '--header <NAME:VALUE>': headers must be formatted as '<NAME:VALUE>' or '<NAME>;'");
    assert_eq!(parse("curl http://a --foo").err().unwrap(), "unexpected argument '--foo' found");
    assert_eq!(parse("curl http://a -d").err().unwrap(), "a value is required for '--data <data>' but none was supplied");
    assert_eq!(parse("curl http://a -L -L").err().unwrap(), "the argument '--location' cannot be used multiple times");
    assert_eq!(parse("curl http://a --max-redirs -2").err().unwrap(), "invalid value '-2' for '--max-redirs <NUM>'");
    assert_eq!(parse("curl http://a http://b").err().unwrap(), "unexpected argument 'http://b' found");
    assert!(parse("curl 'http://a").is_err());
}

#[test]
fn test_hurl_option() {
    assert_eq!(HurlOption::new("retry", "3").to_string(), "retry: 3");
    assert!(has_content_type(&vec!["Content-Type: text/plain".to_string()]));
    assert!(!has_content_type(&vec!["content-type: text/plain".to_string()]));
}

#[test]
fn test_parse_cookie_option() {
    assert_eq!(parse_cookie_option("a=1; b=2").unwrap(), "a=1; b=2");
    assert_eq!(parse_cookie_option("  a=1 ;;  b=2 ; ").unwrap(), "a=1; b=2");
    assert_eq!(parse_cookie_option(" \t ").err().unwrap(), "empty value provided");
    assert_eq!(parse_cookie_option("a=1; b").err().unwrap(), "invalid cookie pair provided");
    assert_eq!(parse_cookie_option("a; b=2; c").err().unwrap(), "invalid cookie pairs provided: [a, c]");
}
