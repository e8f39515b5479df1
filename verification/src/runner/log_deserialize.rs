use vstd::prelude::*;

use crate::http::import::{method_named, quoted_error, version_named};
use crate::http::libcurl::{Header, Method, Param, Request, RequestCookie, Response, Version};
use crate::json_doc::{bool_of, get, lookup, string_of, JsonDoc};
use crate::runner::cookie::{CookieAttribute, ResponseCookie};
use crate::runner::results::{EntryResult, HurlResult};
use crate::text::{append_str, lit, str_eq};

verus! {

/// The method of a curl request named in capitals.
pub open spec fn curl_method_named(s: Seq<char>) -> Option<Method> {
    match method_named(s) {
        Some(crate::http::request::Method::Get) => Some(Method::Get),
        Some(crate::http::request::Method::Head) => Some(Method::Head),
        Some(crate::http::request::Method::Post) => Some(Method::Post),
        Some(crate::http::request::Method::Put) => Some(Method::Put),
        Some(crate::http::request::Method::Delete) => Some(Method::Delete),
        Some(crate::http::request::Method::Connect) => Some(Method::Connect),
        Some(crate::http::request::Method::Options) => Some(Method::Options),
        Some(crate::http::request::Method::Trace) => Some(Method::Trace),
        Some(crate::http::request::Method::Patch) => Some(Method::Patch),
        None => None,
    }
}

/// Reads a method name.
pub fn parse_method(s: String) -> (r: Result<Method, String>)
    ensures
        match r {
            Ok(m) => curl_method_named(s@) == Some(m),
            Err(e) => curl_method_named(s@) is None && e@ == quoted_error("Invalid method "@, s@),
        },
{
    match crate::http::import::parse_method(s) {
        Ok(crate::http::request::Method::Get) => Ok(Method::Get),
        Ok(crate::http::request::Method::Head) => Ok(Method::Head),
        Ok(crate::http::request::Method::Post) => Ok(Method::Post),
        Ok(crate::http::request::Method::Put) => Ok(Method::Put),
        Ok(crate::http::request::Method::Delete) => Ok(Method::Delete),
        Ok(crate::http::request::Method::Connect) => Ok(Method::Connect),
        Ok(crate::http::request::Method::Options) => Ok(Method::Options),
        Ok(crate::http::request::Method::Trace) => Ok(Method::Trace),
        Ok(crate::http::request::Method::Patch) => Ok(Method::Patch),
        Err(e) => Err(e),
    }
}

/// The curl version of an HTTP version text.
pub open spec fn curl_version_named(s: Seq<char>) -> Option<Version> {
    match version_named(s) {
        Some(crate::http::response::Version::Http10) => Some(Version::Http10),
        Some(crate::http::response::Version::Http11) => Some(Version::Http11),
        Some(crate::http::response::Version::Http2) => Some(Version::Http2),
        None => None,
    }
}

/// Reads an HTTP version.
pub fn parse_version(s: String) -> (r: Result<Version, String>)
    ensures
        match r {
            Ok(v) => curl_version_named(s@) == Some(v),
            Err(e) => curl_version_named(s@) is None && e@ == "Expecting version HTTP/1.0, HTTP/1.2 or HTTP/2"@,
        },
{
    match crate::http::import::parse_version(s) {
        Ok(crate::http::response::Version::Http10) => Ok(Version::Http10),
        Ok(crate::http::response::Version::Http11) => Ok(Version::Http11),
        Ok(crate::http::response::Version::Http2) => Ok(Version::Http2),
        Err(e) => Err(e),
    }
}

/// A name and a value read from a JSON object, or the error: `what` names the errors.
pub open spec fn pair_result(v: JsonDoc, name_error: Seq<char>, value_error: Seq<char>, object_error: Seq<char>) -> Result<(Seq<char>, Seq<char>), Seq<char>> {
    match v {
        JsonDoc::Object(m) => match string_of(lookup(m@, "name"@)) {
            Some(n) => match string_of(lookup(m@, "value"@)) {
                Some(x) => Ok((n, x)),
                None => Err(value_error),
            },
            None => Err(name_error),
        },
        _ => Err(object_error),
    }
}

/// Reads the name and the value of a JSON object.
fn pair_of(v: &JsonDoc, name_error: &str, value_error: &str, object_error: &str) -> (r: Result<(String, String), String>)
    ensures
        match r {
            Ok(p) => pair_result(*v, name_error@, value_error@, object_error@) == Ok::<(Seq<char>, Seq<char>), Seq<char>>((p.0@, p.1@)),
            Err(e) => pair_result(*v, name_error@, value_error@, object_error@) == Err::<(Seq<char>, Seq<char>), Seq<char>>(e@),
        },
{
    match v {
        JsonDoc::Object(m) => match get(m, "name") {
            Some(JsonDoc::String(n)) => match get(m, "value") {
                Some(JsonDoc::String(x)) => Ok((n.clone(), x.clone())),
                _ => Err(lit(value_error)),
            },
            _ => Err(lit(name_error)),
        },
        _ => Err(lit(object_error)),
    }
}

/// The header read from a JSON value, or the error.
pub open spec fn header_result(v: JsonDoc) -> Result<(Seq<char>, Seq<char>), Seq<char>> {
    pair_result(v, "expecting a string for the header name"@, "expecting a string for the header value"@, "Expecting object for one header"@)
}

/// Reads a header from a JSON value.
pub fn parse_header(value: JsonDoc) -> (r: Result<Header, String>)
    ensures
        match r {
            Ok(h) => header_result(value) == Ok::<(Seq<char>, Seq<char>), Seq<char>>((h.name@, h.value@)),
            Err(e) => header_result(value) == Err::<(Seq<char>, Seq<char>), Seq<char>>(e@),
        },
{
    match pair_of(&value, "expecting a string for the header name", "expecting a string for the header value", "Expecting object for one header") {
        Ok((name, value)) => Ok(Header { name, value }),
        Err(e) => Err(e),
    }
}

/// The parameter read from a JSON value, or the error.
pub open spec fn param_result(v: JsonDoc) -> Result<(Seq<char>, Seq<char>), Seq<char>> {
    pair_result(v, "expecting a string for the cookie name"@, "expecting a string for the cookie value"@, "Expecting object for the param"@)
}

/// Reads a query or form parameter from a JSON value.
pub fn parse_param(value: JsonDoc) -> (r: Result<Param, String>)
    ensures
        match r {
            Ok(p) => param_result(value) == Ok::<(Seq<char>, Seq<char>), Seq<char>>((p.name@, p.value@)),
            Err(e) => param_result(value) == Err::<(Seq<char>, Seq<char>), Seq<char>>(e@),
        },
{
    match pair_of(&value, "expecting a string for the cookie name", "expecting a string for the cookie value", "Expecting object for the param") {
        Ok((name, value)) => Ok(Param { name, value }),
        Err(e) => Err(e),
    }
}

/// The request cookie read from a JSON value, or the error.
pub open spec fn request_cookie_result(v: JsonDoc) -> Result<(Seq<char>, Seq<char>), Seq<char>> {
    pair_result(v, "expecting a string for the cookie name"@, "expecting a string for the cookie value"@, "Expecting object for the request cookie"@)
}

/// Reads a request cookie from a JSON value.
pub fn parse_request_cookie(value: JsonDoc) -> (r: Result<RequestCookie, String>)
    ensures
        match r {
            Ok(c) => request_cookie_result(value) == Ok::<(Seq<char>, Seq<char>), Seq<char>>((c.name@, c.value@)),
            Err(e) => request_cookie_result(value) == Err::<(Seq<char>, Seq<char>), Seq<char>>(e@),
        },
{
    match pair_of(&value, "expecting a string for the cookie name", "expecting a string for the cookie value", "Expecting object for the request cookie") {
        Ok((name, value)) => Ok(RequestCookie { name, value }),
        Err(e) => Err(e),
    }
}

/// An attribute as plain values.
pub open spec fn attr_pair(a: CookieAttribute) -> (Seq<char>, Option<Seq<char>>) {
    (a.name@, match a.value { Some(v) => Some(v@), None => None })
}

/// The attributes that an optional string member adds: none when it is missing; `None`
/// when it is not a string.
pub open spec fn string_step(v: Option<JsonDoc>, name: Seq<char>) -> Option<Seq<(Seq<char>, Option<Seq<char>>)>> {
    match v {
        None => Some(Seq::empty()),
        Some(JsonDoc::String(s)) => Some(seq![(name, Some(s@))]),
        _ => None,
    }
}

/// The attributes that the `max_age` member adds: its number as written; `None` when
/// it is not a number.
pub open spec fn number_step(v: Option<JsonDoc>) -> Option<Seq<(Seq<char>, Option<Seq<char>>)>> {
    match v {
        None => Some(Seq::empty()),
        Some(JsonDoc::Number(t, _)) => Some(seq![("Max-Age"@, Some(t@))]),
        _ => None,
    }
}

/// The attributes that a flag member adds: the flag when it is `true`; `None` when it
/// is anything else.
pub open spec fn flag_step(v: Option<JsonDoc>, name: Seq<char>) -> Option<Seq<(Seq<char>, Option<Seq<char>>)>> {
    match v {
        None => Some(Seq::empty()),
        Some(JsonDoc::Bool(true)) => Some(seq![(name, None::<Seq<char>>)]),
        _ => None,
    }
}

/// The attributes read from the members of a cookie, in order, or the first error.
pub open spec fn attributes_result(m: Seq<(String, JsonDoc)>) -> Result<Seq<(Seq<char>, Option<Seq<char>>)>, Seq<char>> {
    match string_step(lookup(m, "expires"@), "Expires"@) {
        None => Err("expecting a string for the cookie expires"@),
        Some(a1) => match number_step(lookup(m, "max_age"@)) {
            None => Err("expecting an integer for the cookie max_age"@),
            Some(a2) => match string_step(lookup(m, "domain"@), "Domain"@) {
                None => Err("expecting a string for the cookie domain"@),
                Some(a3) => match string_step(lookup(m, "path"@), "Path"@) {
                    None => Err("expecting a string for the cookie path"@),
                    Some(a4) => match flag_step(lookup(m, "secure"@), "Secure"@) {
                        None => Err("expecting a true for the cookie secure flag"@),
                        Some(a5) => match flag_step(lookup(m, "http_only"@), "HttpOnly"@) {
                            None => Err("expecting a true for the cookie http_only flag"@),
                            Some(a6) => match string_step(lookup(m, "same_site"@), "SameSite"@) {
                                None => Err("expecting a string for the cookie same_site"@),
                                Some(a7) => Ok(a1 + a2 + a3 + a4 + a5 + a6 + a7),
                            },
                        },
                    },
                },
            },
        },
    }
}

/// The response cookie read from a JSON value, or the error.
pub open spec fn response_cookie_result(v: JsonDoc) -> Result<(Seq<char>, Seq<char>, Seq<(Seq<char>, Option<Seq<char>>)>), Seq<char>> {
    match v {
        JsonDoc::Object(m) => match string_of(lookup(m@, "name"@)) {
            None => Err("expecting a string for the cookie name"@),
            Some(n) => match string_of(lookup(m@, "value"@)) {
                None => Err("expecting a string for the cookie value"@),
                Some(x) => match attributes_result(m@) {
                    Ok(attrs) => Ok((n, x, attrs)),
                    Err(e) => Err(e),
                },
            },
        },
        _ => Err("Expecting object for one cookie"@),
    }
}

/// Adds the attribute of an optional string member.
fn push_string_attr(attrs: &mut Vec<CookieAttribute>, v: Option<&JsonDoc>, name: &str) -> (ok: bool)
    ensures
        ok == (string_step(match v { Some(x) => Some(*x), None => None }, name@) is Some),
        ok ==> final(attrs)@.map_values(|a: CookieAttribute| attr_pair(a))
            == old(attrs)@.map_values(|a: CookieAttribute| attr_pair(a)) + string_step(match v { Some(x) => Some(*x), None => None }, name@)->0,
{
    let ghost before = attrs@.map_values(|a: CookieAttribute| attr_pair(a));
    match v {
        None => {
            assert(attrs@.map_values(|a: CookieAttribute| attr_pair(a)) =~= before + Seq::empty());
            true
        },
        Some(JsonDoc::String(s)) => {
            attrs.push(CookieAttribute { name: lit(name), value: Some(s.clone()) });
            assert(attrs@.map_values(|a: CookieAttribute| attr_pair(a)) =~= before + seq![(name@, Some(s@))]);
            true
        },
        _ => false,
    }
}

/// Adds a flag attribute when the member is `true`.
fn push_flag_attr(attrs: &mut Vec<CookieAttribute>, v: Option<&JsonDoc>, name: &str) -> (ok: bool)
    ensures
        ok == (flag_step(match v { Some(x) => Some(*x), None => None }, name@) is Some),
        ok ==> final(attrs)@.map_values(|a: CookieAttribute| attr_pair(a))
            == old(attrs)@.map_values(|a: CookieAttribute| attr_pair(a)) + flag_step(match v { Some(x) => Some(*x), None => None }, name@)->0,
{
    let ghost before = attrs@.map_values(|a: CookieAttribute| attr_pair(a));
    match v {
        None => {
            assert(attrs@.map_values(|a: CookieAttribute| attr_pair(a)) =~= before + Seq::empty());
            true
        },
        Some(JsonDoc::Bool(true)) => {
            attrs.push(CookieAttribute { name: lit(name), value: None });
            assert(attrs@.map_values(|a: CookieAttribute| attr_pair(a)) =~= before + seq![(name@, None::<Seq<char>>)]);
            true
        },
        _ => false,
    }
}

/// Reads a response cookie, with its attributes, from a JSON value.
pub fn parse_response_cookie(value: JsonDoc) -> (r: Result<ResponseCookie, String>)
    ensures
        match r {
            Ok(c) => response_cookie_result(value) == Ok::<(Seq<char>, Seq<char>, Seq<(Seq<char>, Option<Seq<char>>)>), Seq<char>>(
                (c.name@, c.value@, c.attributes@.map_values(|a: CookieAttribute| attr_pair(a)))),
            Err(e) => response_cookie_result(value) == Err::<(Seq<char>, Seq<char>, Seq<(Seq<char>, Option<Seq<char>>)>), Seq<char>>(e@),
        },
{
    let m = match &value {
        JsonDoc::Object(m) => m,
        _ => {
            return Err(lit("Expecting object for one cookie"));
        },
    };
    let name = match get(m, "name") {
        Some(JsonDoc::String(s)) => s.clone(),
        _ => {
            return Err(lit("expecting a string for the cookie name"));
        },
    };
    let value = match get(m, "value") {
        Some(JsonDoc::String(s)) => s.clone(),
        _ => {
            return Err(lit("expecting a string for the cookie value"));
        },
    };
    let mut attributes: Vec<CookieAttribute> = Vec::new();
    assert(attributes@.map_values(|a: CookieAttribute| attr_pair(a)) =~= Seq::<(Seq<char>, Option<Seq<char>>)>::empty());
    if !push_string_attr(&mut attributes, get(m, "expires"), "Expires") {
        return Err(lit("expecting a string for the cookie expires"));
    }
    let ghost after1 = attributes@.map_values(|a: CookieAttribute| attr_pair(a));
    match get(m, "max_age") {
        None => {},
        Some(JsonDoc::Number(t, _)) => {
            attributes.push(CookieAttribute { name: lit("Max-Age"), value: Some(t.clone()) });
        },
        _ => {
            return Err(lit("expecting an integer for the cookie max_age"));
        },
    }
    assert(attributes@.map_values(|a: CookieAttribute| attr_pair(a)) =~= after1 + number_step(lookup(m@, "max_age"@))->0);
    if !push_string_attr(&mut attributes, get(m, "domain"), "Domain") {
        return Err(lit("expecting a string for the cookie domain"));
    }
    if !push_string_attr(&mut attributes, get(m, "path"), "Path") {
        return Err(lit("expecting a string for the cookie path"));
    }
    if !push_flag_attr(&mut attributes, get(m, "secure"), "Secure") {
        return Err(lit("expecting a true for the cookie secure flag"));
    }
    if !push_flag_attr(&mut attributes, get(m, "http_only"), "HttpOnly") {
        return Err(lit("expecting a true for the cookie http_only flag"));
    }
    if !push_string_attr(&mut attributes, get(m, "same_site"), "SameSite") {
        return Err(lit("expecting a string for the cookie same_site"));
    }
    let ghost attrs_model = attributes@.map_values(|a: CookieAttribute| attr_pair(a));
    assert(attributes_result(m@) == Ok::<Seq<(Seq<char>, Option<Seq<char>>)>, Seq<char>>(attrs_model));
    Ok(ResponseCookie { name, value, attributes })
}

/// Name and value pairs read from JSON values, in order, or the first error.
pub open spec fn pairs_array(vs: Seq<JsonDoc>, ne: Seq<char>, ve: Seq<char>, oe: Seq<char>) -> Result<Seq<(Seq<char>, Seq<char>)>, Seq<char>>
    decreases vs.len(),
{
    if vs.len() == 0 {
        Ok(Seq::empty())
    } else {
        match pairs_array(vs.drop_last(), ne, ve, oe) {
            Ok(ps) => match pair_result(vs.last(), ne, ve, oe) {
                Ok(p) => Ok(ps.push(p)),
                Err(e) => Err(e),
            },
            Err(e) => Err(e),
        }
    }
}

/// The pairs of a member that is an array; none when it is missing or not an array.
pub open spec fn pairs_member(v: Option<JsonDoc>, ne: Seq<char>, ve: Seq<char>, oe: Seq<char>) -> Result<Seq<(Seq<char>, Seq<char>)>, Seq<char>> {
    match v {
        Some(JsonDoc::Array(values)) => pairs_array(values@, ne, ve, oe),
        _ => Ok(Seq::empty()),
    }
}

/// An error reading the first pairs is the error of all of them.
proof fn lemma_pairs_error_stays(vs: Seq<JsonDoc>, ne: Seq<char>, ve: Seq<char>, oe: Seq<char>, n: int)
    requires
        0 <= n <= vs.len(),
        pairs_array(vs.take(n), ne, ve, oe) is Err,
    ensures
        pairs_array(vs, ne, ve, oe) == pairs_array(vs.take(n), ne, ve, oe),
    decreases vs.len() - n,
{
    if n < vs.len() {
        assert(vs.take(n + 1).drop_last() =~= vs.take(n));
        lemma_pairs_error_stays(vs, ne, ve, oe, n + 1);
    } else {
        assert(vs.take(n) =~= vs);
    }
}

/// The pairs as plain values.
pub open spec fn pair_views(v: Seq<(String, String)>) -> Seq<(Seq<char>, Seq<char>)> {
    v.map_values(|p: (String, String)| (p.0@, p.1@))
}

/// Reads name and value pairs from a member that is an array.
fn pairs_of(v: Option<&JsonDoc>, ne: &str, ve: &str, oe: &str) -> (r: Result<Vec<(String, String)>, String>)
    ensures
        match r {
            Ok(ps) => pairs_member(match v { Some(x) => Some(*x), None => None }, ne@, ve@, oe@)
                == Ok::<Seq<(Seq<char>, Seq<char>)>, Seq<char>>(pair_views(ps@)),
            Err(e) => pairs_member(match v { Some(x) => Some(*x), None => None }, ne@, ve@, oe@)
                == Err::<Seq<(Seq<char>, Seq<char>)>, Seq<char>>(e@),
        },
{
    match v {
        Some(JsonDoc::Array(values)) => pairs_from(values, ne, ve, oe),
        _ => {
            let r: Vec<(String, String)> = Vec::new();
            assert(pair_views(r@) =~= Seq::<(Seq<char>, Seq<char>)>::empty());
            Ok(r)
        },
    }
}

/// Reads name and value pairs from JSON values, stopping at the first error.
fn pairs_from(values: &Vec<JsonDoc>, ne: &str, ve: &str, oe: &str) -> (r: Result<Vec<(String, String)>, String>)
    ensures
        match r {
            Ok(ps) => pairs_array(values@, ne@, ve@, oe@) == Ok::<Seq<(Seq<char>, Seq<char>)>, Seq<char>>(pair_views(ps@)),
            Err(e) => pairs_array(values@, ne@, ve@, oe@) == Err::<Seq<(Seq<char>, Seq<char>)>, Seq<char>>(e@),
        },
{
    let mut pairs: Vec<(String, String)> = Vec::new();
    let mut i: usize = 0;
    assert(values@.take(0) =~= Seq::<JsonDoc>::empty());
    assert(pair_views(pairs@) =~= Seq::<(Seq<char>, Seq<char>)>::empty());
    while i < values.len()
        invariant
            i <= values.len(),
            pairs_array(values@.take(i as int), ne@, ve@, oe@) == Ok::<Seq<(Seq<char>, Seq<char>)>, Seq<char>>(pair_views(pairs@)),
        decreases values.len() - i,
    {
        assert(values@.take(i + 1).drop_last() =~= values@.take(i as int));
        assert(values@.take(i + 1).last() == values@[i as int]);
        match pair_of(&values[i], ne, ve, oe) {
            Ok(p) => {
                pairs.push(p);
            },
            Err(e) => {
                proof {
                    lemma_pairs_error_stays(values@, ne@, ve@, oe@, i + 1);
                }
                return Err(e);
            },
        }
        i += 1;
        assert(pair_views(pairs@) =~= pairs_array(values@.take(i as int), ne@, ve@, oe@)->Ok_0);
    }
    assert(values@.take(values.len() as int) =~= values@);
    Ok(pairs)
}

/// Headers from name and value pairs.
fn to_headers(ps: Vec<(String, String)>) -> (r: Vec<Header>)
    ensures
        r@.map_values(|h: Header| (h.name@, h.value@)) == pair_views(ps@),
{
    let mut ps = ps;
    let mut r: Vec<Header> = Vec::new();
    let ghost all = ps@;
    while ps.len() > 0
        invariant
            pair_views(all) == r@.map_values(|h: Header| (h.name@, h.value@)) + pair_views(ps@),
        decreases ps.len(),
    {
        let ghost before = ps@;
        let (name, value) = ps.remove(0);
        r.push(Header { name, value });
        assert(pair_views(before) =~= seq![(name@, value@)] + pair_views(ps@));
        assert(pair_views(all) =~= r@.map_values(|h: Header| (h.name@, h.value@)) + pair_views(ps@));
    }
    assert(pair_views(ps@) =~= Seq::<(Seq<char>, Seq<char>)>::empty());
    assert(pair_views(all) =~= r@.map_values(|h: Header| (h.name@, h.value@)));
    r
}

/// Parameters from name and value pairs.
fn to_params(ps: Vec<(String, String)>) -> (r: Vec<Param>)
    ensures
        r@.map_values(|h: Param| (h.name@, h.value@)) == pair_views(ps@),
{
    let mut ps = ps;
    let mut r: Vec<Param> = Vec::new();
    let ghost all = ps@;
    while ps.len() > 0
        invariant
            pair_views(all) == r@.map_values(|h: Param| (h.name@, h.value@)) + pair_views(ps@),
        decreases ps.len(),
    {
        let ghost before = ps@;
        let (name, value) = ps.remove(0);
        r.push(Param { name, value });
        assert(pair_views(before) =~= seq![(name@, value@)] + pair_views(ps@));
        assert(pair_views(all) =~= r@.map_values(|h: Param| (h.name@, h.value@)) + pair_views(ps@));
    }
    assert(pair_views(ps@) =~= Seq::<(Seq<char>, Seq<char>)>::empty());
    assert(pair_views(all) =~= r@.map_values(|h: Param| (h.name@, h.value@)));
    r
}

/// Request cookies from name and value pairs.
fn to_cookies(ps: Vec<(String, String)>) -> (r: Vec<RequestCookie>)
    ensures
        r@.map_values(|h: RequestCookie| (h.name@, h.value@)) == pair_views(ps@),
{
    let mut ps = ps;
    let mut r: Vec<RequestCookie> = Vec::new();
    let ghost all = ps@;
    while ps.len() > 0
        invariant
            pair_views(all) == r@.map_values(|h: RequestCookie| (h.name@, h.value@)) + pair_views(ps@),
        decreases ps.len(),
    {
        let ghost before = ps@;
        let (name, value) = ps.remove(0);
        r.push(RequestCookie { name, value });
        assert(pair_views(before) =~= seq![(name@, value@)] + pair_views(ps@));
        assert(pair_views(all) =~= r@.map_values(|h: RequestCookie| (h.name@, h.value@)) + pair_views(ps@));
    }
    assert(pair_views(ps@) =~= Seq::<(Seq<char>, Seq<char>)>::empty());
    assert(pair_views(all) =~= r@.map_values(|h: RequestCookie| (h.name@, h.value@)));
    r
}

/// A curl request as plain values.
pub struct CurlRequestModel {
    pub method: Method,
    pub url: Seq<char>,
    pub headers: Seq<(Seq<char>, Seq<char>)>,
    pub querystring: Seq<(Seq<char>, Seq<char>)>,
    pub form: Seq<(Seq<char>, Seq<char>)>,
    pub cookies: Seq<(Seq<char>, Seq<char>)>,
}

/// A curl request as plain values.
pub open spec fn request_model(req: Request) -> CurlRequestModel {
    CurlRequestModel {
        method: req.method,
        url: req.url@,
        headers: req.headers@.map_values(|h: Header| (h.name@, h.value@)),
        querystring: req.querystring@.map_values(|h: Param| (h.name@, h.value@)),
        form: req.form@.map_values(|h: Param| (h.name@, h.value@)),
        cookies: req.cookies@.map_values(|h: RequestCookie| (h.name@, h.value@)),
    }
}

/// The errors of the members of a request.
pub open spec fn headers_member(v: Option<JsonDoc>) -> Result<Seq<(Seq<char>, Seq<char>)>, Seq<char>> {
    pairs_member(v, "expecting a string for the header name"@, "expecting a string for the header value"@, "Expecting object for one header"@)
}

/// The parameters of a member.
pub open spec fn params_member(v: Option<JsonDoc>) -> Result<Seq<(Seq<char>, Seq<char>)>, Seq<char>> {
    pairs_member(v, "expecting a string for the cookie name"@, "expecting a string for the cookie value"@, "Expecting object for the param"@)
}

/// The request cookies of a member.
pub open spec fn cookies_member(v: Option<JsonDoc>) -> Result<Seq<(Seq<char>, Seq<char>)>, Seq<char>> {
    pairs_member(v, "expecting a string for the cookie name"@, "expecting a string for the cookie value"@, "Expecting object for the request cookie"@)
}

/// The curl request read from a JSON value, or the first error: method, URL, headers,
/// query string, form, cookies.
pub open spec fn request_result(v: JsonDoc) -> Result<CurlRequestModel, Seq<char>> {
    match v {
        JsonDoc::Object(m) => {
            let m = m@;
            match string_of(lookup(m, "method"@)) {
                None => Err("expecting a string for the method"@),
                Some(ms) => match curl_method_named(ms) {
                    None => Err(quoted_error("Invalid method "@, ms)),
                    Some(method) => match string_of(lookup(m, "url"@)) {
                        None => Err("expecting a string for the url"@),
                        Some(url) => match headers_member(lookup(m, "headers"@)) {
                            Err(e) => Err(e),
                            Ok(headers) => match params_member(lookup(m, "queryString"@)) {
                                Err(e) => Err(e),
                                Ok(querystring) => match params_member(lookup(m, "form"@)) {
                                    Err(e) => Err(e),
                                    Ok(form) => match cookies_member(lookup(m, "cookies"@)) {
                                        Err(e) => Err(e),
                                        Ok(cookies) => Ok(CurlRequestModel { method, url, headers, querystring, form, cookies }),
                                    },
                                },
                            },
                        },
                    },
                },
            }
        },
        _ => Err("expecting an object for the request"@),
    }
}

/// Reads a curl request from a JSON value; its body and multipart form are empty.
pub fn parse_request(value: JsonDoc) -> (r: Result<Request, String>)
    ensures
        match r {
            Ok(req) => request_result(value) == Ok::<CurlRequestModel, Seq<char>>(request_model(req))
                && req.body@.len() == 0 && req.multipart@.len() == 0,
            Err(e) => request_result(value) == Err::<CurlRequestModel, Seq<char>>(e@),
        },
{
    let m = match &value {
        JsonDoc::Object(m) => m,
        _ => {
            return Err(lit("expecting an object for the request"));
        },
    };
    let method = match get(m, "method") {
        Some(JsonDoc::String(s)) => match parse_method(s.clone()) {
            Ok(x) => x,
            Err(e) => {
                return Err(e);
            },
        },
        _ => {
            return Err(lit("expecting a string for the method"));
        },
    };
    let url = match get(m, "url") {
        Some(JsonDoc::String(s)) => s.clone(),
        _ => {
            return Err(lit("expecting a string for the url"));
        },
    };
    let headers = match pairs_of(get(m, "headers"), "expecting a string for the header name", "expecting a string for the header value", "Expecting object for one header") {
        Ok(ps) => to_headers(ps),
        Err(e) => {
            return Err(e);
        },
    };
    let querystring = match pairs_of(get(m, "queryString"), "expecting a string for the cookie name", "expecting a string for the cookie value", "Expecting object for the param") {
        Ok(ps) => to_params(ps),
        Err(e) => {
            return Err(e);
        },
    };
    let form = match pairs_of(get(m, "form"), "expecting a string for the cookie name", "expecting a string for the cookie value", "Expecting object for the param") {
        Ok(ps) => to_params(ps),
        Err(e) => {
            return Err(e);
        },
    };
    let cookies = match pairs_of(get(m, "cookies"), "expecting a string for the cookie name", "expecting a string for the cookie value", "Expecting object for the request cookie") {
        Ok(ps) => to_cookies(ps),
        Err(e) => {
            return Err(e);
        },
    };
    Ok(Request { method, url, headers, querystring, form, multipart: Vec::new(), cookies, body: Vec::new() })
}

/// A curl response as plain values.
pub struct CurlResponseModel {
    pub version: Version,
    pub status: u32,
    pub headers: Seq<(Seq<char>, Seq<char>)>,
}

/// A curl response as plain values.
pub open spec fn response_model(resp: Response) -> CurlResponseModel {
    CurlResponseModel {
        version: resp.version,
        status: resp.status,
        headers: resp.headers@.map_values(|h: Header| (h.name@, h.value@)),
    }
}

/// The curl response read from a JSON value, or the first error: status, version,
/// headers.
pub open spec fn response_result(v: JsonDoc) -> Result<CurlResponseModel, Seq<char>> {
    match v {
        JsonDoc::Object(m) => {
            let m = m@;
            match lookup(m, "status"@) {
                Some(JsonDoc::Number(_, Some(x))) => match string_of(lookup(m, "httpVersion"@)) {
                    None => Err("expecting a string for the version"@),
                    Some(vs) => match curl_version_named(vs) {
                        None => Err("Expecting version HTTP/1.0, HTTP/1.2 or HTTP/2"@),
                        Some(version) => match headers_member(lookup(m, "headers"@)) {
                            Err(e) => Err(e),
                            Ok(headers) => Ok(CurlResponseModel { version, status: x as u32, headers }),
                        },
                    },
                },
                Some(JsonDoc::Number(_, None)) => Err("expecting a integer for the status"@),
                _ => Err("expecting a number for the status"@),
            }
        },
        _ => Err("expecting an object for the response"@),
    }
}

/// Reads a curl response from a JSON value; the body is empty.
pub fn parse_response(value: JsonDoc) -> (r: Result<Response, String>)
    ensures
        match r {
            Ok(resp) => response_result(value) == Ok::<CurlResponseModel, Seq<char>>(response_model(resp))
                && resp.body@.len() == 0,
            Err(e) => response_result(value) == Err::<CurlResponseModel, Seq<char>>(e@),
        },
{
    let m = match &value {
        JsonDoc::Object(m) => m,
        _ => {
            return Err(lit("expecting an object for the response"));
        },
    };
    let status = match get(m, "status") {
        Some(JsonDoc::Number(_, Some(x))) => *x as u32,
        Some(JsonDoc::Number(_, None)) => {
            return Err(lit("expecting a integer for the status"));
        },
        _ => {
            return Err(lit("expecting a number for the status"));
        },
    };
    let version = match get(m, "httpVersion") {
        Some(JsonDoc::String(s)) => match parse_version(s.clone()) {
            Ok(v) => v,
            Err(e) => {
                return Err(e);
            },
        },
        _ => {
            return Err(lit("expecting a string for the version"));
        },
    };
    let headers = match pairs_of(get(m, "headers"), "expecting a string for the header name", "expecting a string for the header value", "Expecting object for one header") {
        Ok(ps) => to_headers(ps),
        Err(e) => {
            return Err(e);
        },
    };
    Ok(Response { version, status, headers, body: Vec::new() })
}


/// Removing a member that comes before every member named `k` leaves the value of `k`.
proof fn lemma_lookup_remove(m: Seq<(String, JsonDoc)>, i: int, key: Seq<char>, k: Seq<char>)
    requires
        0 <= i < m.len(),
        m[i].0@ == key,
        k != key,
    ensures
        lookup(m.remove(i), k) == lookup(m, k),
    decreases i,
{
    if i > 0 {
        assert(m.remove(i)[0] == m[0]);
        if m[0].0@ != k {
            assert(m.remove(i).drop_first() =~= m.drop_first().remove(i - 1));
            lemma_lookup_remove(m.drop_first(), i - 1, key, k);
        }
    } else {
        assert(m.remove(0) =~= m.drop_first());
    }
}

/// Takes out the value of the first member named `key`; the others keep their values.
fn take_member(members: &mut Vec<(String, JsonDoc)>, key: &str) -> (r: Option<JsonDoc>)
    ensures
        r == lookup(old(members)@, key@),
        forall|k: Seq<char>| k != key@ ==> lookup(final(members)@, k) == lookup(old(members)@, k),
{
    let ghost all = members@;
    let mut i: usize = 0;
    assert(all.skip(0) =~= all);
    while i < members.len()
        invariant
            i <= members.len(),
            all == members@,
            all == old(members)@,
            lookup(all, key@) == lookup(all.skip(i as int), key@),
        decreases members.len() - i,
    {
        assert(all.skip(i as int)[0] == all[i as int]);
        if str_eq(members[i].0.as_str(), key) {
            assert(lookup(all, key@) == Some(all[i as int].1));
            let (_, v) = members.remove(i);
            proof {
                assert forall|k: Seq<char>| k != key@ implies lookup(members@, k) == lookup(all, k) by {
                    lemma_lookup_remove(all, i as int, key@, k);
                }
            }
            return Some(v);
        }
        assert(all.skip(i as int).drop_first() =~= all.skip(i + 1));
        i += 1;
    }
    assert(all.skip(i as int) =~= Seq::<(String, JsonDoc)>::empty());
    None
}

/// The value of a member of an object.
pub open spec fn member(v: JsonDoc, key: Seq<char>) -> Option<JsonDoc> {
    match v {
        JsonDoc::Object(m) => lookup(m@, key),
        _ => None,
    }
}

/// What a log records of an entry: its request and its response, when there are.
pub struct EntryModel {
    pub request: Option<CurlRequestModel>,
    pub response: Option<CurlResponseModel>,
}

/// The entry read from a JSON value, or the first error: request, then response.
pub open spec fn entry_result(v: JsonDoc) -> Result<EntryModel, Seq<char>> {
    let request = match member(v, "request"@) {
        None => Ok(None),
        Some(r) => match request_result(r) {
            Ok(x) => Ok(Some(x)),
            Err(e) => Err(e),
        },
    };
    match request {
        Err(e) => Err(e),
        Ok(request) => match member(v, "response"@) {
            None => Ok(EntryModel { request, response: None }),
            Some(r) => match response_result(r) {
                Ok(x) => Ok(EntryModel { request, response: Some(x) }),
                Err(e) => Err(e),
            },
        },
    }
}

/// The request and response of an entry, as plain values.
pub open spec fn entry_model(e: EntryResult) -> EntryModel {
    EntryModel {
        request: match e.request {
            Some(r) => Some(request_model(r)),
            None => None,
        },
        response: match e.response {
            Some(r) => Some(response_model(r)),
            None => None,
        },
    }
}

/// An entry read from a log: no capture, assert or error, no time, empty bodies.
pub open spec fn bare_entry(e: EntryResult) -> bool {
    &&& e.captures@.len() == 0
    &&& e.asserts@.len() == 0
    &&& e.errors@.len() == 0
    &&& e.time_in_ms == 0
    &&& (e.request matches Some(r) ==> r.body@.len() == 0 && r.multipart@.len() == 0)
    &&& (e.response matches Some(r) ==> r.body@.len() == 0)
}

/// Reads an entry of a run from a JSON value.
pub fn parse_entry_result(value: JsonDoc) -> (r: Result<EntryResult, String>)
    ensures
        match entry_result(value) {
            Ok(m) => r matches Ok(e) && entry_model(e) == m && bare_entry(e),
            Err(msg) => r matches Err(x) && x@ == msg,
        },
{
    let ghost v0 = value;
    let (request_doc, response_doc) = match value {
        JsonDoc::Object(m) => {
            let mut m = m;
            let a = take_member(&mut m, "request");
            proof {
                reveal_strlit("request");
                reveal_strlit("response");
                assert("response"@[2] != "request"@[2]);
            }
            let b = take_member(&mut m, "response");
            (a, b)
        },
        _ => (None, None),
    };
    assert(request_doc == member(v0, "request"@) && response_doc == member(v0, "response"@));
    let request = match request_doc {
        None => None,
        Some(d) => match parse_request(d) {
            Ok(x) => Some(x),
            Err(e) => {
                return Err(e);
            },
        },
    };
    let response = match response_doc {
        None => None,
        Some(d) => match parse_response(d) {
            Ok(x) => Some(x),
            Err(e) => {
                return Err(e);
            },
        },
    };
    Ok(EntryResult {
        request,
        response,
        captures: Vec::new(),
        asserts: Vec::new(),
        errors: Vec::new(),
        time_in_ms: 0,
    })
}


/// The entries read from JSON values, in order, or the first error.
pub open spec fn entries_result(vs: Seq<JsonDoc>) -> Result<Seq<EntryModel>, Seq<char>>
    decreases vs.len(),
{
    if vs.len() == 0 {
        Ok(Seq::empty())
    } else {
        match entries_result(vs.drop_last()) {
            Err(e) => Err(e),
            Ok(es) => match entry_result(vs.last()) {
                Ok(e) => Ok(es.push(e)),
                Err(e) => Err(e),
            },
        }
    }
}

/// An error in the first values is the error of all of them.
proof fn lemma_entries_error(vs: Seq<JsonDoc>, n: int)
    requires
        0 <= n <= vs.len(),
        entries_result(vs.take(n)) is Err,
    ensures
        entries_result(vs) == entries_result(vs.take(n)),
    decreases vs.len(),
{
    if n == vs.len() {
        assert(vs.take(n) =~= vs);
    } else {
        assert(vs.drop_last().take(n) =~= vs.take(n));
        lemma_entries_error(vs.drop_last(), n);
    }
}

/// What a log records of a run: its file, its entries, its time and whether it
/// succeeded.
pub struct ResultModel {
    pub filename: Seq<char>,
    pub entries: Seq<EntryModel>,
    pub time_in_ms: nat,
    pub success: bool,
}

/// The file name of a run can be read: a run that is an object names its file with a
/// string.
pub open spec fn filename_readable(v: JsonDoc) -> bool {
    v matches JsonDoc::Object(m) ==> string_of(lookup(m@, "filename"@)) is Some
}

/// The run read from a JSON value, or the first error: entries, time, status.
pub open spec fn result_result(v: JsonDoc) -> Result<ResultModel, Seq<char>> {
    match v {
        JsonDoc::Object(m) => {
            let m = m@;
            match lookup(m, "entries"@) {
                Some(JsonDoc::Array(vs)) => match entries_result(vs@) {
                    Err(e) => Err(e),
                    Ok(entries) => match lookup(m, "time"@) {
                        Some(JsonDoc::Number(_, Some(t))) => match bool_of(lookup(m, "success"@)) {
                            Some(success) => Ok(ResultModel {
                                filename: string_of(lookup(m, "filename"@))->0,
                                entries,
                                time_in_ms: t as nat,
                                success,
                            }),
                            None => Err("expecting a bool for the status"@),
                        },
                        _ => Err("expecting an integer for the time"@),
                    },
                },
                _ => Err("expecting an array of entries"@),
            }
        },
        _ => Err("expecting an object for the result"@),
    }
}

/// A run as plain values.
pub open spec fn result_model(h: HurlResult) -> ResultModel {
    ResultModel {
        filename: h.filename@,
        entries: h.entries@.map_values(|e: EntryResult| entry_model(e)),
        time_in_ms: h.time_in_ms as nat,
        success: h.success,
    }
}

/// A run read from a log: no cookie, and bare entries.
pub open spec fn bare_result(h: HurlResult) -> bool {
    &&& h.cookies@.len() == 0
    &&& forall|k: int| 0 <= k < h.entries@.len() ==> bare_entry(#[trigger] h.entries@[k])
}

/// Reads a run from a JSON value.
pub fn parse_result(value: JsonDoc) -> (r: Result<HurlResult, String>)
    requires
        filename_readable(value),
    ensures
        match result_result(value) {
            Ok(m) => r matches Ok(h) && result_model(h) == m && bare_result(h),
            Err(msg) => r matches Err(x) && x@ == msg,
        },
{
    let ghost v0 = value;
    let mut m = match value {
        JsonDoc::Object(m) => m,
        _ => {
            return Err(lit("expecting an object for the result"));
        },
    };
    let ghost m0 = m@;
    let filename = match get(&m, "filename") {
        Some(JsonDoc::String(s)) => s.clone(),
        _ => {
            assert(false);
            String::new()
        },
    };
    let time: Option<u64> = match get(&m, "time") {
        Some(JsonDoc::Number(_, Some(t))) => Some(*t),
        _ => None,
    };
    let success: Option<bool> = match get(&m, "success") {
        Some(JsonDoc::Bool(b)) => Some(*b),
        _ => None,
    };
    let mut values = match take_member(&mut m, "entries") {
        Some(JsonDoc::Array(vs)) => vs,
        _ => {
            return Err(lit("expecting an array of entries"));
        },
    };
    let ghost all = values@;
    let ghost mut done: Seq<JsonDoc> = Seq::empty();
    let mut entries: Vec<EntryResult> = Vec::new();
    assert(entries@.map_values(|e: EntryResult| entry_model(e)) =~= Seq::<EntryModel>::empty());
    assert(all =~= done + values@);
    while values.len() > 0
        invariant
            all == done + values@,
            v0 == value,
            entries_result(all) matches Err(e) ==> result_result(v0) == Err::<ResultModel, Seq<char>>(e),
            entries_result(done) == Ok::<Seq<EntryModel>, Seq<char>>(entries@.map_values(|e: EntryResult| entry_model(e))),
            forall|k: int| 0 <= k < entries@.len() ==> bare_entry(#[trigger] entries@[k]),
        decreases values.len(),
    {
        let ghost before = values@;
        let d = values.remove(0);
        proof {
            assert(done.push(d).drop_last() =~= done);
            assert(all =~= done.push(d) + values@);
        }
        match parse_entry_result(d) {
            Ok(e) => {
                let ghost models = entries@.map_values(|e: EntryResult| entry_model(e));
                entries.push(e);
                proof {
                    assert(entries@.map_values(|e: EntryResult| entry_model(e)) =~= models.push(entry_model(e)));
                    done = done.push(d);
                }
            },
            Err(e) => {
                proof {
                    assert(all.take(done.len() as int + 1) =~= done.push(d));
                    lemma_entries_error(all, done.len() as int + 1);
                }
                return Err(e);
            },
        }
    }
    assert(done =~= all);
    let time_in_ms = match time {
        Some(t) => t as u128,
        None => {
            return Err(lit("expecting an integer for the time"));
        },
    };
    let success = match success {
        Some(b) => b,
        None => {
            return Err(lit("expecting a bool for the status"));
        },
    };
    Ok(HurlResult { filename, entries, time_in_ms, success, cookies: Vec::new() })
}


/// The runs read from JSON values, in order, or the first error.
pub open spec fn results_seq(vs: Seq<JsonDoc>) -> Result<Seq<ResultModel>, Seq<char>>
    decreases vs.len(),
{
    if vs.len() == 0 {
        Ok(Seq::empty())
    } else {
        match results_seq(vs.drop_last()) {
            Err(e) => Err(e),
            Ok(rs) => match result_result(vs.last()) {
                Ok(x) => Ok(rs.push(x)),
                Err(e) => Err(e),
            },
        }
    }
}

/// An error in the first values is the error of all of them.
proof fn lemma_results_error(vs: Seq<JsonDoc>, n: int)
    requires
        0 <= n <= vs.len(),
        results_seq(vs.take(n)) is Err,
    ensures
        results_seq(vs) == results_seq(vs.take(n)),
    decreases vs.len(),
{
    if n == vs.len() {
        assert(vs.take(n) =~= vs);
    } else {
        assert(vs.drop_last().take(n) =~= vs.take(n));
        lemma_results_error(vs.drop_last(), n);
    }
}

/// Each run that is read, the runs before it having been read, names its file.
pub open spec fn results_readable(vs: Seq<JsonDoc>) -> bool {
    forall|k: int| 0 <= k < vs.len() && results_seq(vs.take(k)) is Ok ==> filename_readable(#[trigger] vs[k])
}

/// The runs of a session read from a JSON value, or the first error.
pub open spec fn results_result(v: JsonDoc) -> Result<Seq<ResultModel>, Seq<char>> {
    match v {
        JsonDoc::Array(vs) => results_seq(vs@),
        _ => Err("expecting an array of session"@),
    }
}

/// Reads the runs of a session from a JSON value.
pub fn parse_results(value: JsonDoc) -> (r: Result<Vec<HurlResult>, String>)
    requires
        value matches JsonDoc::Array(vs) ==> results_readable(vs@),
    ensures
        match results_result(value) {
            Ok(ms) => r matches Ok(hs) && hs@.map_values(|h: HurlResult| result_model(h)) == ms
                && forall|k: int| 0 <= k < hs@.len() ==> bare_result(#[trigger] hs@[k]),
            Err(msg) => r matches Err(x) && x@ == msg,
        },
{
    let ghost v0 = value;
    let mut values = match value {
        JsonDoc::Array(vs) => vs,
        _ => {
            return Err(lit("expecting an array of session"));
        },
    };
    let ghost all = values@;
    let ghost mut done: Seq<JsonDoc> = Seq::empty();
    let mut results: Vec<HurlResult> = Vec::new();
    assert(results@.map_values(|h: HurlResult| result_model(h)) =~= Seq::<ResultModel>::empty());
    assert(all =~= done + values@);
    while values.len() > 0
        invariant
            all == done + values@,
            v0 == value,
            v0 matches JsonDoc::Array(vs) && vs@ == all,
            results_readable(all),
            results_seq(done) == Ok::<Seq<ResultModel>, Seq<char>>(results@.map_values(|h: HurlResult| result_model(h))),
            forall|k: int| 0 <= k < results@.len() ==> bare_result(#[trigger] results@[k]),
        decreases values.len(),
    {
        let d = values.remove(0);
        proof {
            assert(done.push(d).drop_last() =~= done);
            assert(all.take(done.len() as int) =~= done);
            assert(all[done.len() as int] == d);
            assert(all =~= done.push(d) + values@);
        }
        match parse_result(d) {
            Ok(h) => {
                let ghost models = results@.map_values(|h: HurlResult| result_model(h));
                results.push(h);
                proof {
                    assert(results@.map_values(|h: HurlResult| result_model(h)) =~= models.push(result_model(h)));
                    done = done.push(d);
                }
            },
            Err(e) => {
                proof {
                    assert(all.take(done.len() as int + 1) =~= done.push(d));
                    lemma_results_error(all, done.len() as int + 1);
                }
                return Err(e);
            },
        }
    }
    assert(done =~= all);
    Ok(results)
}


/// The method read from a log is the one whose name is written: a text names a method
/// exactly when it is that method's name, so reading a method's name gives it back and
/// the name of a method read is the text read.
pub proof fn law_method_read_is_named(s: Seq<char>, m: Method)
    ensures
        curl_method_named(s) == Some(m) <==> s == crate::http::libcurl::method_name(m),
{
    reveal_strlit("GET");
    reveal_strlit("HEAD");
    reveal_strlit("POST");
    reveal_strlit("PUT");
    reveal_strlit("DELETE");
    reveal_strlit("CONNECT");
    reveal_strlit("OPTIONS");
    reveal_strlit("TRACE");
    reveal_strlit("PATCH");
    assert("GET"@[0] != "PUT"@[0]);
    assert("HEAD"@[0] != "POST"@[0]);
    assert("TRACE"@[0] != "PATCH"@[0]);
    assert("CONNECT"@[0] != "OPTIONS"@[0]);
    assert("GET"@.len() != "HEAD"@.len() && "GET"@.len() != "POST"@.len() && "GET"@.len() != "DELETE"@.len()
        && "GET"@.len() != "CONNECT"@.len() && "GET"@.len() != "OPTIONS"@.len() && "GET"@.len() != "TRACE"@.len()
        && "GET"@.len() != "PATCH"@.len());
    assert("HEAD"@.len() != "PUT"@.len() && "HEAD"@.len() != "DELETE"@.len() && "HEAD"@.len() != "CONNECT"@.len()
        && "HEAD"@.len() != "OPTIONS"@.len() && "HEAD"@.len() != "TRACE"@.len() && "HEAD"@.len() != "PATCH"@.len());
    assert("POST"@.len() != "PUT"@.len() && "POST"@.len() != "DELETE"@.len() && "POST"@.len() != "CONNECT"@.len()
        && "POST"@.len() != "OPTIONS"@.len() && "POST"@.len() != "TRACE"@.len() && "POST"@.len() != "PATCH"@.len());
    assert("PUT"@.len() != "DELETE"@.len() && "PUT"@.len() != "CONNECT"@.len() && "PUT"@.len() != "OPTIONS"@.len()
        && "PUT"@.len() != "TRACE"@.len() && "PUT"@.len() != "PATCH"@.len());
    assert("DELETE"@.len() != "CONNECT"@.len() && "DELETE"@.len() != "OPTIONS"@.len() && "DELETE"@.len() != "TRACE"@.len()
        && "DELETE"@.len() != "PATCH"@.len());
    assert("CONNECT"@.len() != "TRACE"@.len() && "CONNECT"@.len() != "PATCH"@.len() && "OPTIONS"@.len() != "TRACE"@.len()
        && "OPTIONS"@.len() != "PATCH"@.len());
}


/// The version read from a log is the one written: `HTTP/1.0`, `HTTP/1.1` or `HTTP/2`,
/// and no other text names a version.
pub proof fn law_version_read_is_named(s: Seq<char>)
    ensures
        curl_version_named(s) == (if s == "HTTP/1.0"@ {
            Some(Version::Http10)
        } else if s == "HTTP/1.1"@ {
            Some(Version::Http11)
        } else if s == "HTTP/2"@ {
            Some(Version::Http2)
        } else {
            None::<Version>
        }),
{
    reveal_strlit("HTTP/1.0");
    reveal_strlit("HTTP/1.1");
    reveal_strlit("HTTP/2");
}


/// A header, a parameter or a request cookie read from a log is the pair of texts that
/// the object's `name` and `value` members hold, whatever the order of the members.
pub proof fn law_pair_read(m: Vec<(String, JsonDoc)>, n: String, x: String, i: int, j: int)
    requires
        crate::json_doc::unique_keys(m@),
        0 <= i < m@.len(),
        0 <= j < m@.len(),
        m@[i].0@ == "name"@ && m@[i].1 == JsonDoc::String(n),
        m@[j].0@ == "value"@ && m@[j].1 == JsonDoc::String(x),
    ensures
        header_result(JsonDoc::Object(m)) == Ok::<(Seq<char>, Seq<char>), Seq<char>>((n@, x@)),
        param_result(JsonDoc::Object(m)) == Ok::<(Seq<char>, Seq<char>), Seq<char>>((n@, x@)),
        request_cookie_result(JsonDoc::Object(m)) == Ok::<(Seq<char>, Seq<char>), Seq<char>>((n@, x@)),
{
    crate::json_doc::law_lookup_as_map(m@, "name"@, JsonDoc::String(n));
    crate::json_doc::law_lookup_as_map(m@, "value"@, JsonDoc::String(x));
}


/// A request read from a log has the method named by its `method` member and the URL of
/// its `url` member; with no header, parameter or cookie member it has none of them.
pub proof fn law_request_read(m: Vec<(String, JsonDoc)>, meth: Method, ms: String, u: String, i: int, j: int)
    requires
        crate::json_doc::unique_keys(m@),
        0 <= i < m@.len(),
        0 <= j < m@.len(),
        m@[i].0@ == "method"@ && m@[i].1 == JsonDoc::String(ms),
        ms@ == crate::http::libcurl::method_name(meth),
        m@[j].0@ == "url"@ && m@[j].1 == JsonDoc::String(u),
        lookup(m@, "headers"@) is None,
        lookup(m@, "queryString"@) is None,
        lookup(m@, "form"@) is None,
        lookup(m@, "cookies"@) is None,
    ensures
        request_result(JsonDoc::Object(m)) matches Ok(r) && r.method == meth && r.url == u@ && r.headers.len() == 0
            && r.querystring.len() == 0 && r.form.len() == 0 && r.cookies.len() == 0,
{
    crate::json_doc::law_lookup_as_map(m@, "method"@, JsonDoc::String(ms));
    crate::json_doc::law_lookup_as_map(m@, "url"@, JsonDoc::String(u));
    law_method_read_is_named(ms@, meth);
}


/// A response read from a log has the status of its `status` member and the version
/// named by its `httpVersion` member; with no header member it has no header.
pub proof fn law_response_read(m: Vec<(String, JsonDoc)>, t: String, status: u64, vs: String, i: int, j: int)
    requires
        crate::json_doc::unique_keys(m@),
        0 <= i < m@.len(),
        0 <= j < m@.len(),
        m@[i].0@ == "status"@ && m@[i].1 == JsonDoc::Number(t, Some(status)),
        status <= u32::MAX,
        m@[j].0@ == "httpVersion"@ && m@[j].1 == JsonDoc::String(vs),
        vs@ == "HTTP/1.1"@,
        lookup(m@, "headers"@) is None,
    ensures
        response_result(JsonDoc::Object(m)) matches Ok(r) && r.status == status && r.version == Version::Http11
            && r.headers.len() == 0,
{
    crate::json_doc::law_lookup_as_map(m@, "status"@, JsonDoc::Number(t, Some(status)));
    crate::json_doc::law_lookup_as_map(m@, "httpVersion"@, JsonDoc::String(vs));
    law_version_read_is_named(vs@);
    reveal_strlit("HTTP/1.0");
    reveal_strlit("HTTP/1.1");
    assert("HTTP/1.1"@ != "HTTP/1.0"@) by {
        assert("HTTP/1.1"@[7] != "HTTP/1.0"@[7]);
    }
}

} // verus!
