use vstd::prelude::*;

use crate::common::{SourceInfo, Value};
use crate::http::cookie::{opt_view, ResponseCookie as HttpCookie, ResponseCookieView};
use crate::http::response::{
    all_parse, body_text, content_type_has, first_named, matching_values, parsed_cookies, set_cookie_values, Response,
};
use crate::json::{Template, Whitespace};
use crate::json_doc::{docs_model, json_text_doc, parse_json_text, JsonDoc};
use crate::jsonpath::{query_steps, steps_result, Query as JsonpathQuery};
use crate::runner::cookie::{attribute_value, has_attribute, opt_seq, ResponseCookie};
use crate::runner::json_eval::{find_variable, template_text, undefined_error, var_lookup};
use crate::runner::predicate::{copy_value, same_value};
use crate::runner::results::{Error, RunnerError};
use crate::text::{i64_numeral, lit, regex_capture1, regex_first_capture, regex_valid};

verus! {

/// The attribute of a cookie that a query reads; the text is how it was written.
#[derive(Clone, Debug, PartialEq, Eq)]
pub enum CookieAttributeName {
    Value(String),
    Expires(String),
    MaxAge(String),
    Domain(String),
    Path(String),
    Secure(String),
    HttpOnly(String),
    SameSite(String),
}

/// What the query reads of the cookie: the value, or an attribute; a flag gives a unit
/// value when it is set.
pub open spec fn cookie_attribute(n: CookieAttributeName, c: ResponseCookie, r: Option<Value>) -> bool {
    match n {
        CookieAttributeName::Value(_) => r matches Some(Value::String(s)) && s@ == c.value@,
        CookieAttributeName::Expires(_) => string_attribute(r, attribute_value(c.attributes@, "Expires"@)),
        CookieAttributeName::MaxAge(_) => r == (match attribute_value(c.attributes@, "Max-Age"@) {
            Some(v) => match i64_numeral(v) {
                Some(x) => Some(Value::Integer(x as i64)),
                None => None,
            },
            None => None,
        }),
        CookieAttributeName::Domain(_) => string_attribute(r, attribute_value(c.attributes@, "Domain"@)),
        CookieAttributeName::Path(_) => string_attribute(r, attribute_value(c.attributes@, "Path"@)),
        CookieAttributeName::Secure(_) => r == (if has_attribute(c.attributes@, "Secure"@) { Some(Value::Unit) } else { None }),
        CookieAttributeName::HttpOnly(_) => r == (if has_attribute(c.attributes@, "HttpOnly"@) { Some(Value::Unit) } else { None }),
        CookieAttributeName::SameSite(_) => string_attribute(r, attribute_value(c.attributes@, "SameSite"@)),
    }
}

/// `r` is the string value of the attribute when it has one, else nothing.
pub open spec fn string_attribute(r: Option<Value>, a: Option<Seq<char>>) -> bool {
    match a {
        Some(t) => r matches Some(Value::String(s)) && s@ == t,
        None => r is None,
    }
}

/// A string value from an optional string.
fn some_string(o: Option<String>) -> (r: Option<Value>)
    ensures
        string_attribute(r, opt_seq(o)),
{
    match o {
        Some(s) => Some(Value::String(s)),
        None => None,
    }
}

impl CookieAttributeName {
    /// Reads the attribute of the cookie.
    pub fn eval(self, cookie: ResponseCookie) -> (r: Option<Value>)
        ensures
            cookie_attribute(self, cookie, r),
    {
        match self {
            CookieAttributeName::Value(_) => Some(Value::String(cookie.value)),
            CookieAttributeName::Expires(_) => some_string(cookie.expires()),
            CookieAttributeName::MaxAge(_) => match cookie.max_age() {
                Some(v) => Some(Value::Integer(v)),
                None => None,
            },
            CookieAttributeName::Domain(_) => some_string(cookie.domain()),
            CookieAttributeName::Path(_) => some_string(cookie.path()),
            CookieAttributeName::Secure(_) => {
                if cookie.has_secure() {
                    Some(Value::Unit)
                } else {
                    None
                }
            },
            CookieAttributeName::HttpOnly(_) => {
                if cookie.has_httponly() {
                    Some(Value::Unit)
                } else {
                    None
                }
            },
            CookieAttributeName::SameSite(_) => some_string(cookie.samesite()),
        }
    }
}


/// An attribute named after a cookie in a cookie query: `[Name]`.
#[derive(Clone, Debug, PartialEq, Eq)]
pub struct CookieAttribute {
    pub space0: Whitespace,
    pub name: CookieAttributeName,
    pub space1: Whitespace,
}

/// The cookie that a cookie query reads, and the attribute it reads of it.
#[derive(Clone, Debug, PartialEq, Eq)]
pub struct CookiePath {
    pub name: Template,
    pub attribute: Option<CookieAttribute>,
}

/// What a query reads of a response.
#[derive(Clone, Debug, PartialEq, Eq)]
pub enum QueryValue {
    Status {},
    Header { space0: Whitespace, name: Template },
    Cookie { space0: Whitespace, expr: CookiePath },
    Body {},
    Xpath { space0: Whitespace, expr: Template },
    Jsonpath { space0: Whitespace, expr: Template },
    Regex { space0: Whitespace, expr: Template },
    Variable { space0: Whitespace, name: Template },
}

/// A query and where it is written.
#[derive(Clone, Debug, PartialEq, Eq)]
pub struct Query {
    pub source_info: SourceInfo,
    pub value: QueryValue,
}

/// What a query gives: its value; for an XPath query, the expression and the body that
/// the XPath engine evaluates it on; for a JSONPath query, the JSON documents it selects.
#[derive(Debug, PartialEq, Eq)]
pub enum QueryAnswer {
    Done(Option<Value>),
    Xpath { expr: String, expr_source_info: SourceInfo, body: String, html: bool },
    Json(Vec<JsonDoc>),
}

/// What an XPath engine answered.
#[derive(Debug, PartialEq, Eq)]
pub enum XpathOutcome {
    Found(Value),
    InvalidXml,
    InvalidHtml,
    Eval,
}

/// The value of header values: none, the one value, or the list of them.
pub open spec fn header_read(vals: Seq<Seq<char>>, v: Option<Value>) -> bool {
    if vals.len() == 0 {
        v is None
    } else if vals.len() == 1 {
        v matches Some(Value::String(s)) && s@ == vals[0]
    } else {
        &&& v matches Some(Value::List(l))
        &&& v->0->List_0@.len() == vals.len()
        &&& forall|i: int| 0 <= i < vals.len()
            ==> (#[trigger] v->0->List_0@[i] matches Value::String(s) && s@ == vals[i])
    }
}

/// What a cookie query reads of a cookie of the response: the value unless an
/// attribute is named; a flag gives a unit value when it is set.
pub open spec fn cookie_read(a: Option<CookieAttribute>, c: ResponseCookieView, v: Option<Value>) -> bool {
    match a {
        None => v matches Some(Value::String(s)) && s@ == c.value,
        Some(a) => match a.name {
            CookieAttributeName::Value(_) => v matches Some(Value::String(s)) && s@ == c.value,
            CookieAttributeName::Expires(_) => string_attribute(v, c.expires),
            CookieAttributeName::MaxAge(_) => v == (match c.max_age {
                Some(x) => Some(Value::Integer(x)),
                None => None,
            }),
            CookieAttributeName::Domain(_) => string_attribute(v, c.domain),
            CookieAttributeName::Path(_) => string_attribute(v, c.path),
            CookieAttributeName::Secure(_) => v == (if c.secure == Some(true) { Some(Value::Unit) } else { None }),
            CookieAttributeName::HttpOnly(_) => v == (if c.http_only == Some(true) { Some(Value::Unit) } else { None }),
            CookieAttributeName::SameSite(_) => string_attribute(v, c.same_site),
        },
    }
}

/// The error of a body that cannot be decoded, at `si`.
pub open spec fn decoding_error(e: Error, si: SourceInfo) -> bool {
    &&& e.source_info == si
    &&& !e.assert
    &&& e.inner matches RunnerError::InvalidDecoding { charset }
    &&& e.inner->InvalidDecoding_charset@ == "utf-8"@
}

/// The answer of a template-valued query: the error of an undefined variable, or what
/// `k` says of the template's text.
pub open spec fn with_text(t: Template, vs: Seq<(String, Value)>, r: Result<QueryAnswer, Error>, q: Query, resp: Response) -> bool {
    match template_text(t@.elements, vs) {
        Err(u) => r matches Err(e) && undefined_error(e, u),
        Ok(x) => text_answer(q, x, resp, vs, r),
    }
}

/// The answer of a template-valued query whose template reads `x`.
pub open spec fn text_answer(q: Query, x: Seq<char>, resp: Response, vs: Seq<(String, Value)>, r: Result<QueryAnswer, Error>) -> bool {
    match q.value {
        QueryValue::Header { .. } => r matches Ok(QueryAnswer::Done(v)) && header_read(matching_values(resp.headers@, x, false), v),
        QueryValue::Cookie { expr, .. } => r matches Ok(QueryAnswer::Done(v)) && match first_named(parsed_cookies(set_cookie_values(resp.headers@)), x) {
            None => v is None,
            Some(c) => cookie_read(expr.attribute, c, v),
        },
        QueryValue::Xpath { expr, .. } => match body_text(resp) {
            None => r matches Err(e) && decoding_error(e, q.source_info),
            Some(t) => r matches Ok(QueryAnswer::Xpath { expr: e, expr_source_info, body, html })
                && e@ == x && expr_source_info == expr.source_info && body@ == t
                && html == content_type_has(resp.headers@, "html"@),
        },
        QueryValue::Jsonpath { expr, .. } => match query_steps(x) {
            None => r matches Err(e) && e.source_info == expr.source_info && !e.assert
                && e.inner is QueryInvalidJsonpathExpression && e.inner->QueryInvalidJsonpathExpression_value@ == x,
            Some(steps) => match body_text(resp) {
                None => r matches Err(e) && decoding_error(e, q.source_info),
                Some(t) => match json_text_doc(t) {
                    None => r matches Err(e) && e.source_info == q.source_info && !e.assert && e.inner is QueryInvalidJson,
                    Some(doc) => r matches Ok(QueryAnswer::Json(docs)) && docs_model(docs@) == steps_result(steps, doc),
                },
            },
        },
        QueryValue::Regex { expr, .. } => match body_text(resp) {
            None => r matches Err(e) && decoding_error(e, q.source_info),
            Some(t) => if !regex_valid(x) {
                r matches Err(e) && e.source_info == expr.source_info && !e.assert && e.inner is InvalidRegex
            } else {
                r matches Ok(QueryAnswer::Done(v)) && match regex_capture1(x, t) {
                    Some(g) => v matches Some(Value::String(s)) && s@ == g,
                    None => v is None,
                }
            },
        },
        QueryValue::Variable { .. } => r matches Ok(QueryAnswer::Done(v)) && match var_lookup(vs, x) {
            Some(y) => v matches Some(w) && same_value(y, w),
            None => v is None,
        },
        _ => false,
    }
}

/// The answer of a query on a response, given the variables.
pub open spec fn query_answer(q: Query, vs: Seq<(String, Value)>, resp: Response, r: Result<QueryAnswer, Error>) -> bool {
    match q.value {
        QueryValue::Status {} => r matches Ok(QueryAnswer::Done(Some(Value::Integer(n)))) && n == resp.status as i64,
        QueryValue::Body {} => match body_text(resp) {
            Some(t) => r matches Ok(QueryAnswer::Done(Some(Value::String(s)))) && s@ == t,
            None => r matches Err(e) && decoding_error(e, q.source_info),
        },
        QueryValue::Header { name, .. } => with_text(name, vs, r, q, resp),
        QueryValue::Cookie { expr, .. } => with_text(expr.name, vs, r, q, resp),
        QueryValue::Xpath { expr, .. } => with_text(expr, vs, r, q, resp),
        QueryValue::Jsonpath { expr, .. } => with_text(expr, vs, r, q, resp),
        QueryValue::Regex { expr, .. } => with_text(expr, vs, r, q, resp),
        QueryValue::Variable { name, .. } => with_text(name, vs, r, q, resp),
    }
}

/// A cookie query whose name is defined, on a response with a `Set-Cookie` value that
/// does not parse as a cookie.
pub open spec fn cookie_unreadable(q: Query, vs: Seq<(String, Value)>, resp: Response) -> bool {
    &&& q.value matches QueryValue::Cookie { expr, .. }
    &&& template_text(q.value->Cookie_expr.name@.elements, vs) is Ok
    &&& !all_parse(set_cookie_values(resp.headers@))
}

/// The value of header values.
fn header_value(values: Vec<String>) -> (v: Option<Value>)
    ensures
        header_read(values@.map_values(|s: String| s@), v),
{
    let ghost vals = values@.map_values(|s: String| s@);
    if values.len() == 0 {
        None
    } else if values.len() == 1 {
        let mut values = values;
        let s = values.remove(0);
        assert(s@ == vals[0]);
        Some(Value::String(s))
    } else {
        let mut l: Vec<Value> = Vec::new();
        let mut i: usize = 0;
        while i < values.len()
            invariant
                i <= values.len(),
                vals == values@.map_values(|s: String| s@),
                l@.len() == i,
                forall|k: int| 0 <= k < i ==> (#[trigger] l@[k] matches Value::String(s) && s@ == vals[k]),
            decreases values.len() - i,
        {
            l.push(Value::String(values[i].clone()));
            i += 1;
        }
        Some(Value::List(l))
    }
}

/// A string value from an optional string.
fn string_value(o: Option<String>) -> (r: Option<Value>)
    ensures
        string_attribute(r, opt_view(o)),
{
    match o {
        Some(s) => Some(Value::String(s)),
        None => None,
    }
}

/// A unit value for a flag that is set.
fn flag_value(f: Option<bool>) -> (r: Option<Value>)
    ensures
        r == (if f == Some(true) { Some(Value::Unit) } else { None::<Value> }),
{
    match f {
        Some(true) => Some(Value::Unit),
        _ => None,
    }
}

/// What a cookie query reads of a cookie of the response.
fn read_cookie(attribute: Option<CookieAttribute>, c: HttpCookie) -> (v: Option<Value>)
    ensures
        cookie_read(attribute, c@, v),
{
    match attribute {
        None => Some(Value::String(c.value)),
        Some(a) => match a.name {
            CookieAttributeName::Value(_) => Some(Value::String(c.value)),
            CookieAttributeName::Expires(_) => string_value(c.expires),
            CookieAttributeName::MaxAge(_) => match c.max_age {
                Some(x) => Some(Value::Integer(x)),
                None => None,
            },
            CookieAttributeName::Domain(_) => string_value(c.domain),
            CookieAttributeName::Path(_) => string_value(c.path),
            CookieAttributeName::Secure(_) => flag_value(c.secure),
            CookieAttributeName::HttpOnly(_) => flag_value(c.http_only),
            CookieAttributeName::SameSite(_) => string_value(c.same_site),
        },
    }
}

/// The error of a body that cannot be decoded.
fn decoding_failure(source_info: SourceInfo, inner: RunnerError) -> (e: Error)
    requires
        inner matches RunnerError::InvalidDecoding { charset } && inner->InvalidDecoding_charset@ == "utf-8"@,
    ensures
        decoding_error(e, source_info),
{
    Error { source_info, inner, assert: false }
}

impl Query {
    /// Runs the query on a response. An XPath or JSONPath query gives the expression and
    /// the body to evaluate it on.
    pub fn eval(self, variables: &Vec<(String, Value)>, http_response: Response) -> (r: Result<QueryAnswer, Error>)
        requires
            !cookie_unreadable(self, variables@, http_response),
        ensures
            query_answer(self, variables@, http_response, r),
    {
        let ghost q = self;
        let si = self.source_info;
        match self.value {
            QueryValue::Status {} => Ok(QueryAnswer::Done(Some(Value::Integer(http_response.status as i64)))),
            QueryValue::Body {} => match http_response.text() {
                Ok(s) => Ok(QueryAnswer::Done(Some(Value::String(s)))),
                Err(inner) => Err(decoding_failure(si, inner)),
            },
            QueryValue::Header { name, .. } => {
                let header_name = match name.eval(variables) {
                    Ok(h) => h,
                    Err(e) => return Err(e),
                };
                let values = http_response.get_header(header_name.as_str(), false);
                Ok(QueryAnswer::Done(header_value(values)))
            },
            QueryValue::Cookie { expr, .. } => {
                let cookie_name = match expr.name.eval(variables) {
                    Ok(n) => n,
                    Err(e) => return Err(e),
                };
                match http_response.get_cookie(cookie_name.as_str()) {
                    None => Ok(QueryAnswer::Done(None)),
                    Some(c) => Ok(QueryAnswer::Done(read_cookie(expr.attribute, c))),
                }
            },
            QueryValue::Xpath { expr, .. } => {
                let expr_source_info = expr.source_info;
                let value = match expr.eval(variables) {
                    Ok(x) => x,
                    Err(e) => return Err(e),
                };
                match http_response.text() {
                    Err(inner) => Err(decoding_failure(si, inner)),
                    Ok(body) => Ok(QueryAnswer::Xpath { expr: value, expr_source_info, body, html: http_response.is_html() }),
                }
            },
            QueryValue::Jsonpath { expr, .. } => {
                let expr_source_info = expr.source_info;
                let value = match expr.eval(variables) {
                    Ok(x) => x,
                    Err(e) => return Err(e),
                };
                let query = match JsonpathQuery::parse(value.as_str()) {
                    Some(q) => q,
                    None => {
                        return Err(Error {
                            source_info: expr_source_info,
                            inner: RunnerError::QueryInvalidJsonpathExpression { value },
                            assert: false,
                        });
                    },
                };
                let json = match http_response.text() {
                    Ok(t) => t,
                    Err(inner) => return Err(decoding_failure(si, inner)),
                };
                let doc = match parse_json_text(json.as_str()) {
                    Some(d) => d,
                    None => return Err(Error { source_info: si, inner: RunnerError::QueryInvalidJson, assert: false }),
                };
                Ok(QueryAnswer::Json(query.eval(&doc)))
            },
            QueryValue::Regex { expr, .. } => {
                let expr_source_info = expr.source_info;
                let value = match expr.eval(variables) {
                    Ok(x) => x,
                    Err(e) => return Err(e),
                };
                let s = match http_response.text() {
                    Ok(t) => t,
                    Err(inner) => return Err(decoding_failure(si, inner)),
                };
                match regex_first_capture(value.as_str(), s.as_str()) {
                    Some(Some(g)) => Ok(QueryAnswer::Done(Some(Value::String(g)))),
                    Some(None) => Ok(QueryAnswer::Done(None)),
                    None => Err(Error { source_info: expr_source_info, inner: RunnerError::InvalidRegex(), assert: false }),
                }
            },
            QueryValue::Variable { name, .. } => {
                let name = match name.eval(variables) {
                    Ok(n) => n,
                    Err(e) => return Err(e),
                };
                match find_variable(variables, name.as_str()) {
                    Some(v) => Ok(QueryAnswer::Done(Some(copy_value(v)))),
                    None => Ok(QueryAnswer::Done(None)),
                }
            },
        }
    }

    /// Runs the query on a response, or gives nothing for a cookie query on a response
    /// with a `Set-Cookie` value that does not parse.
    pub fn checked_eval(self, variables: &Vec<(String, Value)>, http_response: Response) -> (r: Option<Result<QueryAnswer, Error>>)
        ensures
            r is None <==> (self.value is Cookie && !all_parse(set_cookie_values(http_response.headers@))),
            r matches Some(a) ==> query_answer(self, variables@, http_response, a),
    {
        let is_cookie = match &self.value {
            QueryValue::Cookie { .. } => true,
            _ => false,
        };
        if is_cookie && !http_response.set_cookies_parse() {
            return None;
        }
        Some(self.eval(variables, http_response))
    }
}

/// The value of an XPath query from what the engine answered: a document that does not
/// parse is an error at the query, an expression that cannot be evaluated one at the
/// expression.
pub open spec fn xpath_answer(query_si: SourceInfo, expr_si: SourceInfo, o: XpathOutcome, r: Result<Option<Value>, Error>) -> bool {
    match o {
        XpathOutcome::Found(v) => r matches Ok(Some(w)) && same_value(v, w),
        XpathOutcome::InvalidXml => r matches Err(e) && e.source_info == query_si && !e.assert && e.inner is QueryInvalidXml,
        XpathOutcome::InvalidHtml => r matches Err(e) && e.source_info == query_si && !e.assert && e.inner is QueryInvalidXml,
        XpathOutcome::Eval => r matches Err(e) && e.source_info == expr_si && !e.assert && e.inner is QueryInvalidXpathEval,
    }
}

/// The value of an XPath query from what the XPath engine answered.
pub fn xpath_result(query_source_info: SourceInfo, expr_source_info: SourceInfo, outcome: XpathOutcome) -> (r: Result<Option<Value>, Error>)
    ensures
        xpath_answer(query_source_info, expr_source_info, outcome, r),
{
    match outcome {
        XpathOutcome::Found(v) => {
            let w = copy_value(&v);
            Ok(Some(w))
        },
        XpathOutcome::InvalidXml => Err(Error { source_info: query_source_info, inner: RunnerError::QueryInvalidXml, assert: false }),
        XpathOutcome::InvalidHtml => Err(Error { source_info: query_source_info, inner: RunnerError::QueryInvalidXml, assert: false }),
        XpathOutcome::Eval => Err(Error { source_info: expr_source_info, inner: RunnerError::QueryInvalidXpathEval, assert: false }),
    }
}

/// The value of a JSONPath query from the values of the documents it selects: none for
/// none, the value for one, the list of them for more.
pub fn jsonpath_value(values: Vec<Value>) -> (r: Option<Value>)
    ensures
        values@.len() == 0 ==> r is None,
        values@.len() == 1 ==> r == Some(values@[0]),
        values@.len() > 1 ==> r == Some(Value::List(values)),
{
    if values.len() == 0 {
        None
    } else if values.len() == 1 {
        let mut values = values;
        Some(values.remove(0))
    } else {
        Some(Value::List(values))
    }
}

} // verus!
