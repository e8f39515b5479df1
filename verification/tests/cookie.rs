use hurl::http::cookie::{is_subdomain, is_subpath, Cookie, CookieJar, ResponseCookie};

fn cookie_lsid() -> Cookie {
    Cookie {
        name: String::from("LSID"),
        value: String::from("DQAAAK…Eaem_vYg"),
        domain: String::from("docs.foo.com"),
        path: String::from("/accounts"),
        subdomains: false,
        secure: false,
        expires: None,
    }
}

fn cookie_hsid() -> Cookie {
    Cookie {
        name: String::from("HSID"),
        value: String::from("AYQEVn…DKrdst"),
        domain: String::from(".foo.com"),
        path: String::from("/"),
        subdomains: true,
        secure: false,
        expires: None,
    }
}

fn cookie_ssid() -> Cookie {
    Cookie {
        name: String::from("SSID"),
        value: String::from("Ap4P…GTEq"),
        domain: String::from("foo.com"),
        path: String::from("/"),
        subdomains: true,
        secure: false,
        expires: None,
    }
}

fn sample_cookiejar() -> CookieJar {
    CookieJar::init(vec![cookie_lsid(), cookie_hsid(), cookie_ssid()])
}

fn response_cookie(name: &str, value: &str, max_age: Option<i64>, domain: Option<&str>) -> ResponseCookie {
    ResponseCookie {
        name: name.to_string(),
        value: value.to_string(),
        max_age,
        domain: domain.map(|d| d.to_string()),
        path: None,
        secure: None,
        http_only: None,
        expires: None,
        same_site: None,
    }
}

#[test]
fn test_is_usable() {
    let domain = String::from("example.org");
    let path = String::from("/");
    assert_eq!(cookie_lsid().is_usable(domain.clone(), path.clone()), false);
    assert_eq!(cookie_hsid().is_usable(domain.clone(), path.clone()), false);
    assert_eq!(cookie_ssid().is_usable(domain, path.clone()), false);

    let domain = String::from("foo.com");
    let path = String::from("/");
    assert_eq!(cookie_lsid().is_usable(domain.clone(), path.clone()), false);
    assert_eq!(cookie_hsid().is_usable(domain.clone(), path.clone()), true);
    assert_eq!(cookie_ssid().is_usable(domain, path.clone()), true);

    let domain = String::from("foo.com");
    let path = String::from("/accounts");
    assert_eq!(cookie_lsid().is_usable(domain.clone(), path.clone()), false);
    assert_eq!(cookie_hsid().is_usable(domain.clone(), path.clone()), true);
    assert_eq!(cookie_ssid().is_usable(domain, path), true);

    let domain = String::from("docs.foo.com");
    let path = String::from("/accounts");
    assert_eq!(cookie_lsid().is_usable(domain.clone(), path.clone()), true);
    assert_eq!(cookie_hsid().is_usable(domain.clone(), path.clone()), true);
    assert_eq!(cookie_ssid().is_usable(domain, path), true);
}

#[test]
fn test_get_cookies() {
    let domain = String::from("docs.foo.com");
    let path = String::from("/accounts");
    assert_eq!(sample_cookiejar().get_cookies(domain, path).len(), 3);

    let domain = String::from("toto.docs.foo.com");
    let path = String::from("/accounts");
    assert_eq!(sample_cookiejar().get_cookies(domain, path).len(), 2);
}

#[test]
fn test_is_subdomain() {
    assert_eq!(is_subdomain(String::from("foo.example.org"), String::from("example.org")), false);
    assert_eq!(is_subdomain(String::from("example.org"), String::from("toto.org")), false);

    assert_eq!(is_subdomain(String::from("example.org"), String::from("example.org")), true);
    assert_eq!(is_subdomain(String::from("example.org"), String::from("foo.example.org")), true);
    assert_eq!(is_subdomain(String::from(".example.org"), String::from("foo.example.org")), true);
}

#[test]
fn test_is_subpath() {
    assert_eq!(is_subpath(String::from("/toto"), String::from("/toto")), true);
    assert_eq!(is_subpath(String::from("/"), String::from("/toto")), true);
    assert_eq!(is_subpath(String::from("/to"), String::from("/toto")), false);
}

#[test]
fn test_from_netscape() {
    assert_eq!(
        Cookie::from_netscape("localhost\tFALSE\t/\tFALSE\t0\tcookie2\tvalueA").unwrap(),
        Cookie {
            name: "cookie2".to_string(),
            value: "valueA".to_string(),
            domain: "localhost".to_string(),
            path: "/".to_string(),
            subdomains: false,
            secure: false,
            expires: None,
        }
    );
}

#[test]
fn test_from_netscape_wrong_field_count() {
    assert_eq!(Cookie::from_netscape("localhost\tFALSE\t/"), None);
    assert_eq!(Cookie::from_netscape(""), None);
}

#[test]
fn test_netscape_round_trip() {
    let line = cookie_hsid().to_netscape();
    assert_eq!(line, ".foo.com\tTRUE\t/\tFALSE\t0\tHSID\tAYQEVn…DKrdst");
    assert_eq!(Cookie::from_netscape(line.as_str()).unwrap(), cookie_hsid());
    let mut c = cookie_ssid();
    c.expires = Some(-12);
    c.secure = true;
    assert_eq!(c.to_netscape(), "foo.com\tTRUE\t/\tTRUE\t-12\tSSID\tAp4P…GTEq");
}

#[test]
fn test_update_then_get() {
    let mut jar = CookieJar::init(vec![]);
    jar.update_cookies("localhost".to_string(), "/".to_string(), response_cookie("a", "1", None, None));
    jar.update_cookies("localhost".to_string(), "/".to_string(), response_cookie("b", "2", Some(10), Some("example.org")));
    let cookies = jar.clone().cookies();
    assert_eq!(cookies.len(), 2);
    assert_eq!(cookies[0].domain, "localhost");
    assert_eq!(cookies[0].path, "/");
    assert_eq!(cookies[0].subdomains, false);
    assert_eq!(cookies[1].subdomains, true);
    // same name and domain: the value is replaced in place
    jar.update_cookies("localhost".to_string(), "/".to_string(), response_cookie("a", "3", None, None));
    let sent = jar.clone().get_cookies("localhost".to_string(), "/x".to_string());
    assert_eq!(sent.len(), 1);
    assert_eq!(sent[0].name, "a");
    assert_eq!(sent[0].value, "3");
    assert_eq!(sent[0].domain, Some("localhost".to_string()));
    let sent = jar.clone().get_cookies("www.example.org".to_string(), "/".to_string());
    assert_eq!(sent.len(), 1);
    assert_eq!(sent[0].name, "b");
    // max-age 0 deletes every cookie of the name
    jar.update_cookies("localhost".to_string(), "/".to_string(), response_cookie("a", "", Some(0), None));
    let cookies = jar.cookies();
    assert_eq!(cookies.len(), 1);
    assert_eq!(cookies[0].name, "b");
}

#[test]
fn test_path_with_trailing_slash() {
    assert_eq!(is_subpath(String::from("/a/"), String::from("/a/")), false);
    assert_eq!(is_subpath(String::from(""), String::from("/")), false);
    assert_eq!(is_subdomain(String::from(""), String::from("a")), false);
}

#[test]
fn test_encode_cookie() {
    let h = ResponseCookie::encode_cookie("theme".to_string(), "light".to_string());
    assert_eq!(h.name, "Cookie");
    assert_eq!(h.value, "theme=light;");
}

#[test]
fn test_cookie_to_string() {
    assert_eq!(cookie_lsid().to_string(), "LSID=DQAAAK…Eaem_vYg; domain=docs.foo.com; path=/accounts");
    let mut c = response_cookie("id", "a3fWa", Some(2592000), Some("example.com"));
    assert_eq!(c.to_string(), "id=a3fWa; Max-Age:2592000; Domain:example.com");
    c.path = Some("/docs".to_string());
    c.max_age = None;
    assert_eq!(c.to_string(), "id=a3fWa; Domain:example.com; Path:/docs");
}

#[test]
fn test_response_cookie_from_str() {
    let c = ResponseCookie::from_str("id=a3fWa; Max-Age=2592000; Domain=example.com; Path=/docs; Secure; HttpOnly; SameSite=Lax")
        .ok()
        .unwrap();
    assert_eq!(c.name, "id");
    assert_eq!(c.value, "a3fWa");
    assert_eq!(c.max_age, Some(2592000));
    assert_eq!(c.domain, Some("example.com".to_string()));
    assert_eq!(c.path, Some("/docs".to_string()));
    assert_eq!(c.secure, Some(true));
    assert_eq!(c.http_only, Some(true));
    assert_eq!(c.same_site, Some("Lax".to_string()));
    assert_eq!(c.expires, None);
    assert!(ResponseCookie::checked_from_str("no equal sign").is_none());
    assert_eq!(ResponseCookie::checked_from_str("a=b").unwrap().value, "b");
}

#[test]
fn test_update_keeps_cookies_apart() {
    let mut jar = sample_cookiejar();
    for (name, value, domain) in
        [("SSID", "x", Some("foo.com")), ("SSID", "y", Some("bar.com")), ("LSID", "z", Some("docs.foo.com")), ("SSID", "w", Some("foo.com"))]
    {
        jar.update_cookies("localhost".to_string(), "/".to_string(), response_cookie(name, value, None, domain));
    }
    let cookies = jar.cookies();
    assert_eq!(cookies.len(), 4);
    for i in 0..cookies.len() {
        for j in (i + 1)..cookies.len() {
            assert!(!(cookies[i].name == cookies[j].name && cookies[i].domain == cookies[j].domain));
        }
    }
    assert_eq!(cookies[2].value, "w");
    assert_eq!(cookies[3].domain, "bar.com");
}

#[test]
fn test_response_cookie_expires() {
    let c = ResponseCookie::checked_from_str("a=b; Expires=Wed, 21 Oct 2015 07:28:00 GMT").unwrap();
    assert_eq!(c.expires, Some("Wed, 21 Oct 2015 07:28:00 GMT".to_string()));
}
