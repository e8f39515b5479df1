use vstd::prelude::*;

use crate::http::cookie::{opt_view, response_cookie_views, Cookie, CookieView, ResponseCookie, ResponseCookieView};
use crate::http::header::Header;
use crate::http::request::{Method, Request, Url};
use crate::http::response::{Response, Version};
use crate::json_doc::{bool_of, get, lookup, string_of, JsonDoc};
use crate::text::{append_str, lit, str_eq};

verus! {

/// The method of a name in capitals.
pub open spec fn method_named(s: Seq<char>) -> Option<Method> {
    if s == "GET"@ { Some(Method::Get) }
    else if s == "HEAD"@ { Some(Method::Head) }
    else if s == "POST"@ { Some(Method::Post) }
    else if s == "PUT"@ { Some(Method::Put) }
    else if s == "DELETE"@ { Some(Method::Delete) }
    else if s == "CONNECT"@ { Some(Method::Connect) }
    else if s == "OPTIONS"@ { Some(Method::Options) }
    else if s == "TRACE"@ { Some(Method::Trace) }
    else if s == "PATCH"@ { Some(Method::Patch) }
    else { None }
}

/// `message <s>`.
pub open spec fn quoted_error(message: Seq<char>, s: Seq<char>) -> Seq<char> {
    message + seq!['<'] + s + seq!['>']
}

/// Reads a method name.
pub fn parse_method(s: String) -> (r: Result<Method, String>)
    ensures
        match r {
            Ok(m) => method_named(s@) == Some(m),
            Err(e) => method_named(s@) is None && e@ == quoted_error("Invalid method "@, s@),
        },
{
    let t = s.as_str();
    if str_eq(t, "GET") { Ok(Method::Get) }
    else if str_eq(t, "HEAD") { Ok(Method::Head) }
    else if str_eq(t, "POST") { Ok(Method::Post) }
    else if str_eq(t, "PUT") { Ok(Method::Put) }
    else if str_eq(t, "DELETE") { Ok(Method::Delete) }
    else if str_eq(t, "CONNECT") { Ok(Method::Connect) }
    else if str_eq(t, "OPTIONS") { Ok(Method::Options) }
    else if str_eq(t, "TRACE") { Ok(Method::Trace) }
    else if str_eq(t, "PATCH") { Ok(Method::Patch) }
    else {
        let mut e = lit("Invalid method <");
        append_str(&mut e, t);
        append_str(&mut e, ">");
        proof {
            reveal_strlit("Invalid method <");
            reveal_strlit("Invalid method ");
            reveal_strlit(">");
            assert("Invalid method <"@ =~= "Invalid method "@ + seq!['<']);
            assert(">"@ =~= seq!['>']);
        }
        assert(e@ =~= quoted_error("Invalid method "@, s@));
        Err(e)
    }
}

/// The version of an HTTP version text.
pub open spec fn version_named(s: Seq<char>) -> Option<Version> {
    if s == "HTTP/1.0"@ { Some(Version::Http10) }
    else if s == "HTTP/1.1"@ { Some(Version::Http11) }
    else if s == "HTTP/2"@ { Some(Version::Http2) }
    else { None }
}

/// Reads an HTTP version.
pub fn parse_version(s: String) -> (r: Result<Version, String>)
    ensures
        match r {
            Ok(v) => version_named(s@) == Some(v),
            Err(e) => version_named(s@) is None && e@ == "Expecting version HTTP/1.0, HTTP/1.2 or HTTP/2"@,
        },
{
    let t = s.as_str();
    if str_eq(t, "HTTP/1.0") { Ok(Version::Http10) }
    else if str_eq(t, "HTTP/1.1") { Ok(Version::Http11) }
    else if str_eq(t, "HTTP/2") { Ok(Version::Http2) }
    else { Err(lit("Expecting version HTTP/1.0, HTTP/1.2 or HTTP/2")) }
}

/// The parts of a URL as the url crate reads them.
pub struct UrlParts {
    pub scheme: Seq<char>,
    pub host: Option<Seq<char>>,
    pub port: Option<u16>,
    pub path: Seq<char>,
    pub query: Option<Seq<char>>,
}

/// What `url::Url::parse` (url crate) makes of a text: its scheme, host, port (none for
/// the default port of the scheme), path and query; `None` when it refuses the text.
pub uninterp spec fn url_parts(s: Seq<char>) -> Option<UrlParts>;

/// The parts read by the url crate, as strings.
pub struct ParsedUrl {
    pub scheme: String,
    pub host: Option<String>,
    pub port: Option<u16>,
    pub path: String,
    pub query: Option<String>,
}

/// `url::Url::parse` and the accessors `scheme`, `host_str`, `port`, `path` and `query`;
/// the contract only names the result.
#[verifier::external_body]
pub(crate) fn parse_with_url_crate(s: &str) -> (r: Option<ParsedUrl>)
    ensures
        match r {
            Some(p) => url_parts(s@) == Some(UrlParts {
                scheme: p.scheme@,
                host: opt_view(p.host),
                port: p.port,
                path: p.path@,
                query: opt_view(p.query),
            }),
            None => url_parts(s@) is None,
        },
{
    let u = url::Url::parse(s).ok()?;
    Some(ParsedUrl {
        scheme: u.scheme().to_string(),
        host: u.host_str().map(str::to_string),
        port: u.port(),
        path: u.path().to_string(),
        query: u.query().map(str::to_string),
    })
}

/// A URL split in its parts, as plain values.
pub struct UrlView {
    pub scheme: Seq<char>,
    pub host: Seq<char>,
    pub port: Option<u16>,
    pub path: Seq<char>,
    pub query_string: Seq<char>,
}

/// The view of a URL.
pub open spec fn url_view(u: Url) -> UrlView {
    UrlView { scheme: u.scheme@, host: u.host@, port: u.port, path: u.path@, query_string: u.query_string@ }
}

/// The URL read from a text, or the error; a URL of the url crate always has a host here.
pub open spec fn url_result(s: Seq<char>) -> Result<UrlView, Seq<char>> {
    match url_parts(s) {
        Some(p) => Ok(UrlView {
            scheme: p.scheme,
            host: p.host->0,
            port: p.port,
            path: p.path,
            query_string: match p.query { Some(q) => q, None => Seq::empty() },
        }),
        None => Err(quoted_error("Invalid url "@, s)),
    }
}

/// The url crate reads the text as a URL without a host.
pub open spec fn url_without_host(s: Seq<char>) -> bool {
    url_parts(s) matches Some(p) && p.host is None
}

/// Reads a URL with the url crate.
pub fn parse_url(s: String) -> (r: Result<Url, String>)
    requires
        !url_without_host(s@),
    ensures
        match r {
            Ok(u) => url_result(s@) == Ok::<UrlView, Seq<char>>(url_view(u)),
            Err(e) => url_result(s@) == Err::<UrlView, Seq<char>>(e@),
        },
{
    match parse_with_url_crate(s.as_str()) {
        None => {
            let mut e = lit("Invalid url <");
            append_str(&mut e, s.as_str());
            append_str(&mut e, ">");
            proof {
                reveal_strlit("Invalid url <");
                reveal_strlit("Invalid url ");
                reveal_strlit(">");
                assert("Invalid url <"@ =~= "Invalid url "@ + seq!['<']);
                assert(">"@ =~= seq!['>']);
            }
            assert(e@ =~= quoted_error("Invalid url "@, s@));
            Err(e)
        },
        Some(p) => {
            let host = match p.host {
                Some(h) => h,
                None => {
                    assert(false);
                    String::new()
                },
            };
            let query_string = match p.query {
                Some(q) => q,
                None => String::new(),
            };
            let u = Url { scheme: p.scheme, host, port: p.port, path: p.path, query_string };
            assert(url_result(s@) == Ok::<UrlView, Seq<char>>(url_view(u)));
            Ok(u)
        },
    }
}

/// Reads a URL, or says that the url crate reads it without a host.
pub fn checked_parse_url(s: String) -> (r: Option<Result<Url, String>>)
    ensures
        r is None <==> url_without_host(s@),
        r matches Some(res) ==> match res {
            Ok(u) => url_result(s@) == Ok::<UrlView, Seq<char>>(url_view(u)),
            Err(e) => url_result(s@) == Err::<UrlView, Seq<char>>(e@),
        },
{
    match parse_with_url_crate(s.as_str()) {
        Some(p) => if p.host.is_none() {
            return None;
        },
        None => {},
    }
    Some(parse_url(s))
}

/// A header as a pair of plain values.
pub open spec fn header_pair(h: Header) -> (Seq<char>, Seq<char>) {
    (h.name@, h.value@)
}

/// The header read from a JSON value, or the error.
pub open spec fn header_result(v: JsonDoc) -> Result<(Seq<char>, Seq<char>), Seq<char>> {
    match v {
        JsonDoc::Object(m) => match string_of(lookup(m@, "name"@)) {
            Some(n) => match string_of(lookup(m@, "value"@)) {
                Some(x) => Ok((n, x)),
                None => Err("expecting a string for the header value"@),
            },
            None => Err("expecting a string for the header name"@),
        },
        _ => Err("Expecting object for one header"@),
    }
}

/// The text of a string member.
fn string_member(m: &Vec<(String, JsonDoc)>, key: &str) -> (r: Option<String>)
    ensures
        match r {
            Some(s) => string_of(lookup(m@, key@)) == Some(s@),
            None => string_of(lookup(m@, key@)) is None,
        },
{
    match get(m, key) {
        Some(JsonDoc::String(s)) => Some(s.clone()),
        _ => None,
    }
}

/// Reads a header from a JSON value.
fn header_of(value: &JsonDoc) -> (r: Result<Header, String>)
    ensures
        match r {
            Ok(h) => header_result(*value) == Ok::<(Seq<char>, Seq<char>), Seq<char>>(header_pair(h)),
            Err(e) => header_result(*value) == Err::<(Seq<char>, Seq<char>), Seq<char>>(e@),
        },
{
    match value {
        JsonDoc::Object(m) => match string_member(m, "name") {
            Some(name) => match string_member(m, "value") {
                Some(value) => Ok(Header { name, value }),
                None => Err(lit("expecting a string for the header value")),
            },
            None => Err(lit("expecting a string for the header name")),
        },
        _ => Err(lit("Expecting object for one header")),
    }
}

/// Reads a header from a JSON value.
pub fn parse_header(value: JsonDoc) -> (r: Result<Header, String>)
    ensures
        match r {
            Ok(h) => header_result(value) == Ok::<(Seq<char>, Seq<char>), Seq<char>>(header_pair(h)),
            Err(e) => header_result(value) == Err::<(Seq<char>, Seq<char>), Seq<char>>(e@),
        },
{
    header_of(&value)
}

/// The headers read from JSON values, in order, or the first error.
pub open spec fn headers_result(vs: Seq<JsonDoc>) -> Result<Seq<(Seq<char>, Seq<char>)>, Seq<char>>
    decreases vs.len(),
{
    if vs.len() == 0 {
        Ok(Seq::empty())
    } else {
        match headers_result(vs.drop_last()) {
            Ok(hs) => match header_result(vs.last()) {
                Ok(h) => Ok(hs.push(h)),
                Err(e) => Err(e),
            },
            Err(e) => Err(e),
        }
    }
}

/// The headers of a member that is an array; none when it is missing or not an array.
pub open spec fn headers_member(v: Option<JsonDoc>) -> Result<Seq<(Seq<char>, Seq<char>)>, Seq<char>> {
    match v {
        Some(JsonDoc::Array(values)) => headers_result(values@),
        _ => Ok(Seq::empty()),
    }
}

/// Reads headers from JSON values, stopping at the first error.
fn headers_from(values: &Vec<JsonDoc>) -> (r: Result<Vec<Header>, String>)
    ensures
        match r {
            Ok(hs) => headers_result(values@) == Ok::<Seq<(Seq<char>, Seq<char>)>, Seq<char>>(hs@.map_values(|h: Header| header_pair(h))),
            Err(e) => headers_result(values@) == Err::<Seq<(Seq<char>, Seq<char>)>, Seq<char>>(e@),
        },
{
    let mut headers: Vec<Header> = Vec::new();
    let mut i: usize = 0;
    assert(values@.take(0) =~= Seq::<JsonDoc>::empty());
    assert(headers@.map_values(|h: Header| header_pair(h)) =~= Seq::<(Seq<char>, Seq<char>)>::empty());
    while i < values.len()
        invariant
            i <= values.len(),
            headers_result(values@.take(i as int))
                == Ok::<Seq<(Seq<char>, Seq<char>)>, Seq<char>>(headers@.map_values(|h: Header| header_pair(h))),
        decreases values.len() - i,
    {
        assert(values@.take(i + 1).drop_last() =~= values@.take(i as int));
        assert(values@.take(i + 1).last() == values@[i as int]);
        match header_of(&values[i]) {
            Ok(h) => {
                headers.push(h);
            },
            Err(e) => {
                proof {
                    lemma_headers_error_stays(values@, i + 1);
                }
                return Err(e);
            },
        }
        i += 1;
        assert(headers@.map_values(|h: Header| header_pair(h)) =~= headers_result(values@.take(i as int))->Ok_0);
    }
    assert(values@.take(values.len() as int) =~= values@);
    Ok(headers)
}

/// Reads the headers of a member that is an array.
fn headers_of(v: Option<&JsonDoc>) -> (r: Result<Vec<Header>, String>)
    ensures
        match r {
            Ok(hs) => headers_member(match v { Some(x) => Some(*x), None => None })
                == Ok::<Seq<(Seq<char>, Seq<char>)>, Seq<char>>(hs@.map_values(|h: Header| header_pair(h))),
            Err(e) => headers_member(match v { Some(x) => Some(*x), None => None })
                == Err::<Seq<(Seq<char>, Seq<char>)>, Seq<char>>(e@),
        },
{
    match v {
        Some(JsonDoc::Array(values)) => headers_from(values),
        _ => {
            let r: Vec<Header> = Vec::new();
            assert(r@.map_values(|h: Header| header_pair(h)) =~= Seq::<(Seq<char>, Seq<char>)>::empty());
            Ok(r)
        },
    }
}

/// An error reading the first headers is the error of all of them.
proof fn lemma_headers_error_stays(vs: Seq<JsonDoc>, n: int)
    requires
        0 <= n <= vs.len(),
        headers_result(vs.take(n)) is Err,
    ensures
        headers_result(vs) == headers_result(vs.take(n)),
    decreases vs.len() - n,
{
    if n < vs.len() {
        assert(vs.take(n + 1).drop_last() =~= vs.take(n));
        lemma_headers_error_stays(vs, n + 1);
    } else {
        assert(vs.take(n) =~= vs);
    }
}

/// An optional string member: nothing when it is missing, its text when it is a string;
/// `None` when it is something else.
pub open spec fn opt_string_member(v: Option<JsonDoc>) -> Option<Option<Seq<char>>> {
    match v {
        None => Some(None),
        Some(JsonDoc::String(s)) => Some(Some(s@)),
        _ => None,
    }
}

/// An optional boolean member: nothing when it is missing, its flag when it is a
/// boolean; `None` when it is something else.
pub open spec fn opt_bool_member(v: Option<JsonDoc>) -> Option<Option<bool>> {
    match v {
        None => Some(None),
        Some(JsonDoc::Bool(b)) => Some(Some(b)),
        _ => None,
    }
}

/// Reads an optional string member.
fn opt_string_of(m: &Vec<(String, JsonDoc)>, key: &str) -> (r: Option<Option<String>>)
    ensures
        match r {
            Some(o) => opt_string_member(lookup(m@, key@)) == Some(opt_view(o)),
            None => opt_string_member(lookup(m@, key@)) is None,
        },
{
    match get(m, key) {
        None => Some(None),
        Some(JsonDoc::String(s)) => Some(Some(s.clone())),
        _ => None,
    }
}

/// Reads an optional boolean member.
fn opt_bool_of(m: &Vec<(String, JsonDoc)>, key: &str) -> (r: Option<Option<bool>>)
    ensures
        r == opt_bool_member(lookup(m@, key@)),
{
    match get(m, key) {
        None => Some(None),
        Some(JsonDoc::Bool(b)) => Some(Some(*b)),
        _ => None,
    }
}

/// The response cookie read from a JSON value, or the error.
pub open spec fn response_cookie_result(v: JsonDoc) -> Result<ResponseCookieView, Seq<char>> {
    match v {
        JsonDoc::Object(m) => {
            let m = m@;
            match string_of(lookup(m, "name"@)) {
                None => Err("expecting a string for the cookie name"@),
                Some(name) => match string_of(lookup(m, "value"@)) {
                    None => Err("expecting a string for the cookie value"@),
                    Some(value) => match opt_string_member(lookup(m, "domain"@)) {
                        None => Err("expecting a string for the cookie domain"@),
                        Some(domain) => match opt_string_member(lookup(m, "path"@)) {
                            None => Err("expecting a string for the cookie path"@),
                            Some(path) => match opt_string_member(lookup(m, "expires"@)) {
                                None => Err("expecting a string for the cookie expires"@),
                                Some(expires) => match opt_bool_member(lookup(m, "secure"@)) {
                                    None => Err("expecting a bool for the cookie secure flag"@),
                                    Some(secure) => match opt_bool_member(lookup(m, "http_only"@)) {
                                        None => Err("expecting a bool for the cookie http_only flag"@),
                                        Some(http_only) => match opt_string_member(lookup(m, "same_site"@)) {
                                            None => Err("expecting a string for the cookie same_site"@),
                                            Some(same_site) => Ok(ResponseCookieView {
                                                name,
                                                value,
                                                max_age: None,
                                                domain,
                                                path,
                                                secure,
                                                http_only,
                                                expires,
                                                same_site,
                                            }),
                                        },
                                    },
                                },
                            },
                        },
                    },
                },
            }
        },
        _ => Err("Expecting object for one cookie"@),
    }
}

/// Reads a response cookie from a JSON value.
fn response_cookie_of(value: &JsonDoc) -> (r: Result<ResponseCookie, String>)
    ensures
        match r {
            Ok(c) => response_cookie_result(*value) == Ok::<ResponseCookieView, Seq<char>>(c@),
            Err(e) => response_cookie_result(*value) == Err::<ResponseCookieView, Seq<char>>(e@),
        },
{
    let m = match value {
        JsonDoc::Object(m) => m,
        _ => {
            return Err(lit("Expecting object for one cookie"));
        },
    };
    let name = match string_member(m, "name") {
        Some(s) => s,
        None => {
            return Err(lit("expecting a string for the cookie name"));
        },
    };
    let value = match string_member(m, "value") {
        Some(s) => s,
        None => {
            return Err(lit("expecting a string for the cookie value"));
        },
    };
    let domain = match opt_string_of(m, "domain") {
        Some(o) => o,
        None => {
            return Err(lit("expecting a string for the cookie domain"));
        },
    };
    let path = match opt_string_of(m, "path") {
        Some(o) => o,
        None => {
            return Err(lit("expecting a string for the cookie path"));
        },
    };
    let expires = match opt_string_of(m, "expires") {
        Some(o) => o,
        None => {
            return Err(lit("expecting a string for the cookie expires"));
        },
    };
    let secure = match opt_bool_of(m, "secure") {
        Some(o) => o,
        None => {
            return Err(lit("expecting a bool for the cookie secure flag"));
        },
    };
    let http_only = match opt_bool_of(m, "http_only") {
        Some(o) => o,
        None => {
            return Err(lit("expecting a bool for the cookie http_only flag"));
        },
    };
    let same_site = match opt_string_of(m, "same_site") {
        Some(o) => o,
        None => {
            return Err(lit("expecting a string for the cookie same_site"));
        },
    };
    Ok(ResponseCookie { name, value, max_age: None, domain, path, secure, http_only, expires, same_site })
}

/// Reads a response cookie from a JSON value.
pub fn parse_response_cookie(value: JsonDoc) -> (r: Result<ResponseCookie, String>)
    ensures
        match r {
            Ok(c) => response_cookie_result(value) == Ok::<ResponseCookieView, Seq<char>>(c@),
            Err(e) => response_cookie_result(value) == Err::<ResponseCookieView, Seq<char>>(e@),
        },
{
    response_cookie_of(&value)
}

/// What chrono's `DateTime::parse_from_rfc3339` reads from a text, as seconds since the
/// Unix epoch; `None` when it refuses the text.
pub uninterp spec fn rfc3339_seconds(s: Seq<char>) -> Option<i64>;

/// chrono `DateTime::parse_from_rfc3339`, then the timestamp of the date in UTC.
#[verifier::external_body]
fn parse_rfc3339(s: &str) -> (r: Option<i64>)
    ensures
        r == rfc3339_seconds(s@),
{
    chrono::DateTime::parse_from_rfc3339(s).ok().map(|d| d.timestamp())
}

/// The jar cookie read from a JSON value, or the error.
pub open spec fn cookie_result(v: JsonDoc) -> Result<CookieView, Seq<char>> {
    match v {
        JsonDoc::Object(m) => {
            let m = m@;
            match string_of(lookup(m, "name"@)) {
                None => Err("expecting a string for the cookie name"@),
                Some(name) => match string_of(lookup(m, "value"@)) {
                    None => Err("expecting a string for the cookie value"@),
                    Some(value) => match string_of(lookup(m, "domain"@)) {
                        None => Err("expecting a string for the cookie domain"@),
                        Some(domain) => match string_of(lookup(m, "path"@)) {
                            None => Err("expecting a string for the cookie path"@),
                            Some(path) => match bool_of(lookup(m, "include_subdomain"@)) {
                                None => Err("expecting a bool for the include_subdomain"@),
                                Some(subdomains) => match opt_bool_member(lookup(m, "secure"@)) {
                                    None => Err("expecting a bool for the secure flag"@),
                                    Some(secure) => match lookup(m, "expired"@) {
                                        None => Ok(CookieView {
                                            name, value, domain, path, subdomains,
                                            secure: match secure { Some(b) => b, None => false },
                                            expires: None,
                                        }),
                                        Some(JsonDoc::String(t)) => match rfc3339_seconds(t@) {
                                            Some(ts) => Ok(CookieView {
                                                name, value, domain, path, subdomains,
                                                secure: match secure { Some(b) => b, None => false },
                                                expires: Some(ts),
                                            }),
                                            None => Err("expecting a String (date) for the expired fieldate can be parsed"@),
                                        },
                                        _ => Err("expecting a String (date) for the expired field"@),
                                    },
                                },
                            },
                        },
                    },
                },
            }
        },
        _ => Err("Expecting object for one cookie"@),
    }
}

/// Reads a jar cookie from a JSON value.
pub fn parse_cookie(value: JsonDoc) -> (r: Result<Cookie, String>)
    ensures
        match r {
            Ok(c) => cookie_result(value) == Ok::<CookieView, Seq<char>>(c@),
            Err(e) => cookie_result(value) == Err::<CookieView, Seq<char>>(e@),
        },
{
    let m = match &value {
        JsonDoc::Object(m) => m,
        _ => {
            return Err(lit("Expecting object for one cookie"));
        },
    };
    let name = match string_member(m, "name") {
        Some(s) => s,
        None => {
            return Err(lit("expecting a string for the cookie name"));
        },
    };
    let value = match string_member(m, "value") {
        Some(s) => s,
        None => {
            return Err(lit("expecting a string for the cookie value"));
        },
    };
    let domain = match string_member(m, "domain") {
        Some(s) => s,
        None => {
            return Err(lit("expecting a string for the cookie domain"));
        },
    };
    let path = match string_member(m, "path") {
        Some(s) => s,
        None => {
            return Err(lit("expecting a string for the cookie path"));
        },
    };
    let subdomains = match get(m, "include_subdomain") {
        Some(JsonDoc::Bool(b)) => *b,
        _ => {
            return Err(lit("expecting a bool for the include_subdomain"));
        },
    };
    let secure = match opt_bool_of(m, "secure") {
        Some(Some(b)) => b,
        Some(None) => false,
        None => {
            return Err(lit("expecting a bool for the secure flag"));
        },
    };
    let expires = match get(m, "expired") {
        None => None,
        Some(JsonDoc::String(t)) => match parse_rfc3339(t.as_str()) {
            Some(ts) => Some(ts),
            None => {
                return Err(lit("expecting a String (date) for the expired fieldate can be parsed"));
            },
        },
        _ => {
            return Err(lit("expecting a String (date) for the expired field"));
        },
    };
    Ok(Cookie { name, value, domain, path, subdomains, secure, expires })
}

/// The response cookies read from JSON values, in order, or the first error.
pub open spec fn cookies_result(vs: Seq<JsonDoc>) -> Result<Seq<ResponseCookieView>, Seq<char>>
    decreases vs.len(),
{
    if vs.len() == 0 {
        Ok(Seq::empty())
    } else {
        match cookies_result(vs.drop_last()) {
            Ok(cs) => match response_cookie_result(vs.last()) {
                Ok(c) => Ok(cs.push(c)),
                Err(e) => Err(e),
            },
            Err(e) => Err(e),
        }
    }
}

/// The cookies of a member that is an array; none when it is missing or not an array.
pub open spec fn cookies_member(v: Option<JsonDoc>) -> Result<Seq<ResponseCookieView>, Seq<char>> {
    match v {
        Some(JsonDoc::Array(values)) => cookies_result(values@),
        _ => Ok(Seq::empty()),
    }
}

/// An error reading the first cookies is the error of all of them.
proof fn lemma_cookies_error_stays(vs: Seq<JsonDoc>, n: int)
    requires
        0 <= n <= vs.len(),
        cookies_result(vs.take(n)) is Err,
    ensures
        cookies_result(vs) == cookies_result(vs.take(n)),
    decreases vs.len() - n,
{
    if n < vs.len() {
        assert(vs.take(n + 1).drop_last() =~= vs.take(n));
        lemma_cookies_error_stays(vs, n + 1);
    } else {
        assert(vs.take(n) =~= vs);
    }
}

/// Reads response cookies from JSON values, stopping at the first error.
fn cookies_from(values: &Vec<JsonDoc>) -> (r: Result<Vec<ResponseCookie>, String>)
    ensures
        match r {
            Ok(cs) => cookies_result(values@) == Ok::<Seq<ResponseCookieView>, Seq<char>>(response_cookie_views(cs@)),
            Err(e) => cookies_result(values@) == Err::<Seq<ResponseCookieView>, Seq<char>>(e@),
        },
{
    let mut cookies: Vec<ResponseCookie> = Vec::new();
    let mut i: usize = 0;
    assert(values@.take(0) =~= Seq::<JsonDoc>::empty());
    assert(response_cookie_views(cookies@) =~= Seq::<ResponseCookieView>::empty());
    while i < values.len()
        invariant
            i <= values.len(),
            cookies_result(values@.take(i as int)) == Ok::<Seq<ResponseCookieView>, Seq<char>>(response_cookie_views(cookies@)),
        decreases values.len() - i,
    {
        assert(values@.take(i + 1).drop_last() =~= values@.take(i as int));
        assert(values@.take(i + 1).last() == values@[i as int]);
        match response_cookie_of(&values[i]) {
            Ok(c) => {
                cookies.push(c);
            },
            Err(e) => {
                proof {
                    lemma_cookies_error_stays(values@, i + 1);
                }
                return Err(e);
            },
        }
        i += 1;
        assert(response_cookie_views(cookies@) =~= cookies_result(values@.take(i as int))->Ok_0);
    }
    assert(values@.take(values.len() as int) =~= values@);
    Ok(cookies)
}

/// Reads the cookies of a member that is an array.
fn cookies_of(v: Option<&JsonDoc>) -> (r: Result<Vec<ResponseCookie>, String>)
    ensures
        match r {
            Ok(cs) => cookies_member(match v { Some(x) => Some(*x), None => None })
                == Ok::<Seq<ResponseCookieView>, Seq<char>>(response_cookie_views(cs@)),
            Err(e) => cookies_member(match v { Some(x) => Some(*x), None => None })
                == Err::<Seq<ResponseCookieView>, Seq<char>>(e@),
        },
{
    match v {
        Some(JsonDoc::Array(values)) => cookies_from(values),
        _ => {
            let r: Vec<ResponseCookie> = Vec::new();
            assert(response_cookie_views(r@) =~= Seq::<ResponseCookieView>::empty());
            Ok(r)
        },
    }
}

/// A request as plain values.
pub struct RequestModel {
    pub method: Method,
    pub url: UrlView,
    pub headers: Seq<(Seq<char>, Seq<char>)>,
    pub cookies: Seq<ResponseCookieView>,
}

/// The request read from a JSON value, or the first error met: method, URL, headers,
/// cookies.
pub open spec fn request_result(v: JsonDoc) -> Result<RequestModel, Seq<char>> {
    match v {
        JsonDoc::Object(m) => {
            let m = m@;
            match string_of(lookup(m, "method"@)) {
                None => Err("expecting a string for the method"@),
                Some(ms) => match method_named(ms) {
                    None => Err(quoted_error("Invalid method "@, ms)),
                    Some(method) => match string_of(lookup(m, "url"@)) {
                        None => Err("expecting a string for the url"@),
                        Some(us) => match url_result(us) {
                            Err(e) => Err(e),
                            Ok(url) => match headers_member(lookup(m, "headers"@)) {
                                Err(e) => Err(e),
                                Ok(headers) => match cookies_member(lookup(m, "cookies"@)) {
                                    Err(e) => Err(e),
                                    Ok(cookies) => Ok(RequestModel { method, url, headers, cookies }),
                                },
                            },
                        },
                    },
                },
            }
        },
        _ => Err("expecting an object for the request"@),
    }
}

/// The URL of a request value is read by the url crate without a host, once its method
/// has been read.
pub open spec fn request_url_without_host(v: JsonDoc) -> bool {
    match v {
        JsonDoc::Object(m) => match string_of(lookup(m@, "method"@)) {
            Some(ms) => method_named(ms) is Some && match string_of(lookup(m@, "url"@)) {
                Some(us) => url_without_host(us),
                None => false,
            },
            None => false,
        },
        _ => false,
    }
}

/// The request read from a JSON value, as plain values.
pub open spec fn request_model(r: Request) -> RequestModel {
    RequestModel {
        method: r.method,
        url: url_view(r.url),
        headers: r.headers@.map_values(|h: Header| header_pair(h)),
        cookies: crate::http::cookie::response_cookie_views(r.cookies@),
    }
}

/// Reads a request from a JSON value.
pub fn parse_request(value: JsonDoc) -> (r: Result<Request, String>)
    requires
        !request_url_without_host(value),
    ensures
        match r {
            Ok(req) => request_result(value) == Ok::<RequestModel, Seq<char>>(request_model(req))
                && req.querystring@.len() == 0 && req.body@.len() == 0 && req.multipart@.len() == 0,
            Err(e) => request_result(value) == Err::<RequestModel, Seq<char>>(e@),
        },
{
    let m = match &value {
        JsonDoc::Object(m) => m,
        _ => {
            return Err(lit("expecting an object for the request"));
        },
    };
    let method = match string_member(m, "method") {
        Some(s) => match parse_method(s) {
            Ok(x) => x,
            Err(e) => {
                return Err(e);
            },
        },
        None => {
            return Err(lit("expecting a string for the method"));
        },
    };
    let url = match string_member(m, "url") {
        Some(s) => match parse_url(s) {
            Ok(u) => u,
            Err(e) => {
                return Err(e);
            },
        },
        None => {
            return Err(lit("expecting a string for the url"));
        },
    };
    let headers = match headers_of(get(m, "headers")) {
        Ok(hs) => hs,
        Err(e) => {
            return Err(e);
        },
    };
    let cookies = match cookies_of(get(m, "cookies")) {
        Ok(cs) => cs,
        Err(e) => {
            return Err(e);
        },
    };
    Ok(Request {
        method,
        url,
        querystring: Vec::new(),
        headers,
        cookies,
        body: Vec::new(),
        multipart: Vec::new(),
    })
}

/// Reads a request from a JSON value, or says that its URL is one that the url crate reads
/// without a host.
pub fn checked_parse_request(value: JsonDoc) -> (r: Option<Result<Request, String>>)
    ensures
        r is None <==> request_url_without_host(value),
        r matches Some(res) ==> match res {
            Ok(req) => request_result(value) == Ok::<RequestModel, Seq<char>>(request_model(req)),
            Err(e) => request_result(value) == Err::<RequestModel, Seq<char>>(e@),
        },
{
    let mut hostless = false;
    if let JsonDoc::Object(m) = &value {
        if let Some(ms) = string_member(m, "method") {
            if parse_method(ms).is_ok() {
                if let Some(us) = string_member(m, "url") {
                    if let Some(p) = parse_with_url_crate(us.as_str()) {
                        hostless = p.host.is_none();
                    }
                }
            }
        }
    }
    if hostless {
        None
    } else {
        Some(parse_request(value))
    }
}

/// A response as plain values.
pub struct ResponseModel {
    pub version: Version,
    pub status: u16,
    pub headers: Seq<(Seq<char>, Seq<char>)>,
}

/// The response read from a JSON value, or the first error met: status, version,
/// headers.
pub open spec fn response_result(v: JsonDoc) -> Result<ResponseModel, Seq<char>> {
    match v {
        JsonDoc::Object(m) => {
            let m = m@;
            match lookup(m, "status"@) {
                Some(JsonDoc::Number(_, Some(x))) => match string_of(lookup(m, "httpVersion"@)) {
                    None => Err("expecting a string for the version"@),
                    Some(vs) => match version_named(vs) {
                        None => Err("Expecting version HTTP/1.0, HTTP/1.2 or HTTP/2"@),
                        Some(version) => match headers_member(lookup(m, "headers"@)) {
                            Err(e) => Err(e),
                            Ok(headers) => Ok(ResponseModel { version, status: x as u16, headers }),
                        },
                    },
                },
                Some(JsonDoc::Number(_, None)) => Err("expecting a integer for the status"@),
                _ => Err("expecting a number for the status"@),
            }
        },
        _ => Err("expecting an object for the response"@),
    }
}

/// Reads a response from a JSON value; the body is empty.
pub fn parse_response(value: JsonDoc) -> (r: Result<Response, String>)
    ensures
        match r {
            Ok(resp) => response_result(value) == Ok::<ResponseModel, Seq<char>>(ResponseModel {
                version: resp.version,
                status: resp.status,
                headers: resp.headers@.map_values(|h: Header| header_pair(h)),
            }) && resp.body@.len() == 0,
            Err(e) => response_result(value) == Err::<ResponseModel, Seq<char>>(e@),
        },
{
    let m = match &value {
        JsonDoc::Object(m) => m,
        _ => {
            return Err(lit("expecting an object for the response"));
        },
    };
    let status = match get(m, "status") {
        Some(JsonDoc::Number(_, Some(x))) => *x as u16,
        Some(JsonDoc::Number(_, None)) => {
            return Err(lit("expecting a integer for the status"));
        },
        _ => {
            return Err(lit("expecting a number for the status"));
        },
    };
    let version = match string_member(m, "httpVersion") {
        Some(s) => match parse_version(s) {
            Ok(v) => v,
            Err(e) => {
                return Err(e);
            },
        },
        None => {
            return Err(lit("expecting a string for the version"));
        },
    };
    let headers = match headers_of(get(m, "headers")) {
        Ok(hs) => hs,
        Err(e) => {
            return Err(e);
        },
    };
    Ok(Response { version, status, headers, body: Vec::new() })
}

} // verus!
