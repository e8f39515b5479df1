use vstd::prelude::*;
use vstd::string::StrSliceExecFns;
use vstd::utf8::encode_utf8;

use crate::common::{Pos, SourceInfo, Value};
use crate::http::response::{body_text, matching_values, version_text, Response as HttpResponse};
use crate::json::{json_model, Template, Value as JsonValue, Whitespace};
use crate::runner::json_eval::{json_text, template_text, undefined_error};
use crate::runner::predicate::{copy_value, same_value};
use crate::runner::predicate_func::{expected_writable, predicate_checked, Predicate};
use crate::runner::capture::{capture_fails, capture_gives, capture_succeeds, Capture};
use crate::runner::query::Query;
use crate::runner::results::{copy_error, same_error, AssertResult, CaptureResult, Error, RunnerError};
use crate::text::{append_str, join, join_strings, lit, str_eq, views};

verus! {

/// The HTTP version that a response is expected to have; `*` accepts any.
#[derive(Clone, Copy, Debug, PartialEq, Eq)]
pub enum VersionValue {
    Version1,
    Version11,
    Version2,
    VersionAny,
}

/// How an expected version is written in a report.
pub open spec fn version_value_text(v: VersionValue) -> Seq<char> {
    match v {
        VersionValue::Version1 => "1.0"@,
        VersionValue::Version11 => "1.1"@,
        VersionValue::Version2 => "2"@,
        VersionValue::VersionAny => "*"@,
    }
}

impl VersionValue {
    /// How the expected version is written in a report.
    pub fn as_str(&self) -> (s: String)
        ensures
            s@ == version_value_text(*self),
    {
        proof {
            reveal_strlit("1.0");
            reveal_strlit("1.1");
            reveal_strlit("2");
            reveal_strlit("*");
        }
        match self {
            VersionValue::Version1 => lit("1.0"),
            VersionValue::Version11 => lit("1.1"),
            VersionValue::Version2 => lit("2"),
            VersionValue::VersionAny => lit("*"),
        }
    }
}

/// The expected version and where it is written.
#[derive(Clone, Copy, Debug, PartialEq, Eq)]
pub struct Version {
    pub value: VersionValue,
    pub source_info: SourceInfo,
}

/// The expected status and where it is written.
#[derive(Clone, Copy, Debug, PartialEq, Eq)]
pub struct Status {
    pub value: u64,
    pub source_info: SourceInfo,
}

/// An expected header: its name, where the name is written, and its value.
#[derive(Clone, Debug, PartialEq, Eq)]
pub struct KeyValue {
    pub key: String,
    pub key_source_info: SourceInfo,
    pub value: Template,
}

/// An expected body, in one of the ways a Hurl file writes it.
#[derive(Debug, PartialEq, Eq)]
pub enum Bytes {
    Json { value: JsonValue },
    Xml { value: String },
    RawString { value: Template },
    Base64 { space0: Whitespace, value: Vec<u8>, space1: Whitespace },
    File { filename: String },
}

/// An expected body and the whitespace before it.
#[derive(Debug, PartialEq, Eq)]
pub struct Body {
    pub space0: Whitespace,
    pub value: Bytes,
}

/// An explicit assert: a query and the predicate its value must meet.
#[derive(Clone, Debug, PartialEq, Eq)]
pub struct Assert {
    pub query: Query,
    pub predicate: Predicate,
}

/// The expected response of an entry: version, status, headers, body and asserts.
#[derive(Debug, PartialEq, Eq)]
pub struct Response {
    pub version: Version,
    pub status: Status,
    pub headers: Vec<KeyValue>,
    pub body: Option<Body>,
    pub asserts: Vec<Assert>,
    pub captures: Vec<Capture>,
}

/// Two query results are the same: the same error, no value, or the same value.
pub open spec fn same_actual(a: Result<Option<Value>, Error>, b: Result<Option<Value>, Error>) -> bool {
    match a {
        Err(e) => b matches Err(f) && same_error(e, f),
        Ok(None) => b matches Ok(None),
        Ok(Some(v)) => b matches Ok(Some(w)) && same_value(v, w),
    }
}

/// The result of an explicit assert whose query gave `actual`: the query's result, and
/// the predicate's result on it unless the query failed.
pub open spec fn explicit_result(a: Assert, vs: Seq<(String, Value)>, actual: Result<Option<Value>, Error>, r: AssertResult) -> bool {
    &&& r matches AssertResult::Explicit { actual: x, source_info, predicate_result }
    &&& same_actual(actual, r->Explicit_actual)
    &&& r->Explicit_source_info == a.predicate.predicate_func.source_info
    &&& match actual {
        Err(_) => r->Explicit_predicate_result is None,
        Ok(v) => r->Explicit_predicate_result matches Some(p) && predicate_checked(a.predicate, vs, v, p),
    }
}

/// A query result that the predicate of an assert can be checked on.
pub open spec fn checkable(a: Assert, vs: Seq<(String, Value)>, actual: Result<Option<Value>, Error>) -> bool {
    actual matches Ok(None) ==> expected_writable(a.predicate.predicate_func.value, vs)
}

/// A copy of a query result.
fn copy_actual(a: &Result<Option<Value>, Error>) -> (r: Result<Option<Value>, Error>)
    ensures
        same_actual(*a, r),
{
    match a {
        Err(e) => Err(copy_error(e)),
        Ok(None) => Ok(None),
        Ok(Some(v)) => Ok(Some(copy_value(v))),
    }
}

impl Assert {
    /// The result of the assert, given what its query gave on the response.
    pub fn eval(self, variables: &Vec<(String, Value)>, actual: Result<Option<Value>, Error>) -> (r: AssertResult)
        requires
            checkable(self, variables@, actual),
        ensures
            explicit_result(self, variables@, actual, r),
    {
        let source_info = self.predicate.predicate_func.source_info;
        let copy = copy_actual(&actual);
        let predicate_result = match actual {
            Err(_) => None,
            Ok(v) => Some(self.predicate.eval(variables, v)),
        };
        AssertResult::Explicit { actual: copy, source_info, predicate_result }
    }
}


/// The place of an error raised on the response's body.
pub open spec fn body_origin() -> SourceInfo {
    SourceInfo { start: Pos { line: 1, column: 1 }, end: Pos { line: 1, column: 1 } }
}

/// The header values, each between double quotes.
pub open spec fn quoted(vals: Seq<Seq<char>>) -> Seq<Seq<char>> {
    vals.map_values(|v: Seq<char>| seq!['"'] + v + seq!['"'])
}

/// What a header assert reports as the actual value of several headers: the expected
/// value when one of them has it, else the list of them all.
pub open spec fn header_actual(vals: Seq<Seq<char>>, expected: Seq<char>) -> Seq<char> {
    if vals.len() == 1 {
        vals[0]
    } else if vals.contains(expected) {
        expected
    } else {
        seq!['['] + join(quoted(vals), ", "@) + seq![']']
    }
}

/// The result of the version assert.
pub open spec fn version_result(v: Version, resp: HttpResponse, r: AssertResult) -> bool {
    r matches AssertResult::Version { actual, expected, source_info }
        && actual@ == version_text(resp.version) && expected@ == version_value_text(v.value) && source_info == v.source_info
}

/// The result of the status assert.
pub open spec fn status_result(s: Status, resp: HttpResponse, r: AssertResult) -> bool {
    r matches AssertResult::Status { actual, expected, source_info }
        && actual == resp.status as u64 && expected == s.value && source_info == s.source_info
}

/// The result of a header assert: the template's error, a missing header, or the actual
/// value of the headers of that name (whatever the case) with the expected one.
pub open spec fn header_result(h: KeyValue, vs: Seq<(String, Value)>, resp: HttpResponse, r: AssertResult) -> bool {
    &&& r matches AssertResult::Header { actual, expected, source_info }
    &&& match template_text(h.value@.elements, vs) {
        Err(u) => r->Header_actual matches Err(e) && undefined_error(e, u) && r->Header_expected@ == Seq::<char>::empty()
            && r->Header_source_info == h.key_source_info,
        Ok(x) => {
            let vals = matching_values(resp.headers@, h.key@, false);
            &&& r->Header_expected@ == x
            &&& if vals.len() == 0 {
                &&& r->Header_actual matches Err(e) && e.source_info == h.key_source_info && !e.assert && e.inner is QueryHeaderNotFound
                &&& r->Header_source_info == h.key_source_info
            } else {
                &&& r->Header_actual matches Ok(a) && a@ == header_actual(vals, x)
                &&& r->Header_source_info == h.value.source_info
            }
        },
    }
}

/// The body as read for a body assert: its text, or the error of a body that cannot be
/// decoded, raised by the assert at the start of the file.
pub open spec fn text_actual(resp: HttpResponse, a: Result<Value, Error>) -> bool {
    match body_text(resp) {
        Some(t) => a matches Ok(Value::String(s)) && s@ == t,
        None => a matches Err(e) && e.assert && e.source_info == body_origin() && e.inner is InvalidDecoding
            && e.inner->InvalidDecoding_charset@ == "utf-8"@,
    }
}

/// An expected text: the text, or the error that gave none.
pub open spec fn expected_text(t: Result<Seq<char>, (SourceInfo, Seq<char>)>, a: Result<Value, Error>) -> bool {
    match t {
        Ok(t) => a matches Ok(Value::String(s)) && s@ == t,
        Err(u) => a matches Err(e) && undefined_error(e, u),
    }
}

/// The result of the body assert; `file` is what was read of the file an expected body
/// names.
pub open spec fn body_result(b: Body, vs: Seq<(String, Value)>, resp: HttpResponse, file: Option<Result<Vec<u8>, Error>>, r: AssertResult) -> bool {
    &&& r matches AssertResult::Body { actual, expected, source_info }
    &&& match b.value {
        Bytes::Json { value } => text_actual(resp, r->Body_actual) && r->Body_source_info == b.space0.source_info
            && expected_text(json_text(json_model(value), vs), r->Body_expected),
        Bytes::Xml { value } => text_actual(resp, r->Body_actual) && r->Body_source_info == b.space0.source_info
            && (r->Body_expected matches Ok(Value::String(s)) && s@ == value@),
        Bytes::RawString { value } => text_actual(resp, r->Body_actual) && r->Body_source_info == value.source_info
            && expected_text(template_text(value@.elements, vs), r->Body_expected),
        Bytes::Base64 { space0, value, space1 } => {
            &&& r->Body_actual matches Ok(Value::Bytes(x)) && x@ == resp.body@
            &&& r->Body_expected matches Ok(Value::Bytes(y)) && y@ == value@
            &&& r->Body_source_info == (SourceInfo { start: space0.source_info.end, end: space1.source_info.start })
        },
        Bytes::File { .. } => {
            &&& r->Body_actual matches Ok(Value::Bytes(x)) && x@ == resp.body@
            &&& r->Body_source_info == b.space0.source_info
            &&& match file {
                Some(Ok(c)) => r->Body_expected matches Ok(Value::Bytes(y)) && y@ == c@,
                Some(Err(e)) => r->Body_expected matches Err(f) && f == e,
                None => false,
            }
        },
    }
}

/// The body of the response as text for a body assert.
fn body_actual(resp: &HttpResponse) -> (a: Result<Value, Error>)
    ensures
        text_actual(*resp, a),
{
    match resp.text() {
        Ok(s) => Ok(Value::String(s)),
        Err(inner) => Err(Error {
            source_info: SourceInfo { start: Pos { line: 1, column: 1 }, end: Pos { line: 1, column: 1 } },
            inner,
            assert: true,
        }),
    }
}

/// The values, each between double quotes, in a list.
fn quoted_list(values: &Vec<String>) -> (s: String)
    ensures
        s@ == seq!['['] + join(quoted(views(values@)), ", "@) + seq![']'],
{
    let mut parts: Vec<String> = Vec::new();
    let mut i: usize = 0;
    while i < values.len()
        invariant
            i <= values.len(),
            views(parts@) == quoted(views(values@.take(i as int))),
        decreases values.len() - i,
    {
        proof {
            reveal_strlit("\"");
        }
        let mut q = lit("\"");
        append_str(&mut q, values[i].as_str());
        append_str(&mut q, "\"");
        assert(q@ =~= seq!['"'] + values@[i as int]@ + seq!['"']);
        let ghost before = views(parts@);
        parts.push(q);
        assert(views(parts@) =~= before.push(q@));
        i += 1;
        assert(values@.take(i as int).drop_last() =~= values@.take(i - 1));
        assert(views(values@.take(i as int)) =~= views(values@.take(i - 1)).push(values@[i - 1]@));
        assert(quoted(views(values@.take(i - 1)).push(values@[i - 1]@)) =~= quoted(views(values@.take(i - 1))).push(
            seq!['"'] + values@[i - 1]@ + seq!['"'],
        ));
        assert(views(parts@) =~= quoted(views(values@.take(i as int))));
    }
    assert(values@.take(values.len() as int) =~= values@);
    let inner = join_strings(&parts, ", ");
    let mut s = lit("[");
    append_str(&mut s, inner.as_str());
    append_str(&mut s, "]");
    proof {
        reveal_strlit("[");
        reveal_strlit("]");
    }
    assert(s@ =~= seq!['['] + inner@ + seq![']']);
    s
}

impl KeyValue {
    /// The result of the header assert on the response.
    pub fn eval_assert(self, variables: &Vec<(String, Value)>, http_response: &HttpResponse) -> (r: AssertResult)
        ensures
            header_result(self, variables@, *http_response, r),
    {
        let ghost me = self;
        let key_source_info = self.key_source_info;
        let value_source_info = self.value.source_info;
        let expected = match self.value.eval(variables) {
            Err(e) => {
                return AssertResult::Header { actual: Err(e), expected: String::new(), source_info: key_source_info };
            },
            Ok(x) => x,
        };
        let actuals = http_response.get_header(self.key.as_str(), false);
        let ghost vals = views(actuals@);
        assert(vals =~= actuals@.map_values(|v: String| v@));
        if actuals.len() == 0 {
            AssertResult::Header {
                actual: Err(Error { source_info: key_source_info, inner: RunnerError::QueryHeaderNotFound, assert: false }),
                expected,
                source_info: key_source_info,
            }
        } else if actuals.len() == 1 {
            let actual = actuals[0].clone();
            AssertResult::Header { actual: Ok(actual), expected, source_info: value_source_info }
        } else {
            let mut actual = quoted_list(&actuals);
            let mut i: usize = 0;
            while i < actuals.len()
                invariant
                    i <= actuals.len(),
                    actuals.len() > 1,
                    vals == views(actuals@),
                    me == self,
                    vals == matching_values(http_response.headers@, me.key@, false),
                    template_text(me.value@.elements, variables@) == Ok::<Seq<char>, (SourceInfo, Seq<char>)>(expected@),
                    key_source_info == me.key_source_info,
                    value_source_info == me.value.source_info,
                    forall|k: int| 0 <= k < i ==> vals[k] != expected@,
                    actual@ == seq!['['] + join(quoted(vals), ", "@) + seq![']'],
                decreases actuals.len() - i,
            {
                if str_eq(actuals[i].as_str(), expected.as_str()) {
                    let a = actuals[i].clone();
                    assert(vals[i as int] == actuals@[i as int]@);
                    assert(vals[i as int] == expected@);
                    assert(vals.contains(expected@));
                    assert(vals.len() > 1);
                    assert(header_actual(vals, expected@) == expected@);
                    assert(a@ == expected@);
                    return AssertResult::Header { actual: Ok(a), expected, source_info: value_source_info };
                }
                i += 1;
            }
            assert(!vals.contains(expected@));
            AssertResult::Header { actual: Ok(actual), expected, source_info: value_source_info }
        }
    }
}

impl Body {
    /// The result of the body assert on the response; `file` is what was read of the
    /// file that a `file,` body names.
    pub fn eval_assert(
        self,
        variables: &Vec<(String, Value)>,
        http_response: &HttpResponse,
        file: Option<Result<Vec<u8>, Error>>,
    ) -> (r: AssertResult)
        requires
            self.value is File ==> file is Some,
        ensures
            body_result(self, variables@, *http_response, file, r),
    {
        let space_source_info = self.space0.source_info;
        match self.value {
            Bytes::Json { value } => {
                let expected = match value.eval(variables) {
                    Ok(s) => Ok(Value::String(s)),
                    Err(e) => Err(e),
                };
                AssertResult::Body { actual: body_actual(http_response), expected, source_info: space_source_info }
            },
            Bytes::Xml { value } => {
                AssertResult::Body { actual: body_actual(http_response), expected: Ok(Value::String(value)), source_info: space_source_info }
            },
            Bytes::RawString { value } => {
                let source_info = value.source_info;
                let expected = match value.eval(variables) {
                    Ok(s) => Ok(Value::String(s)),
                    Err(e) => Err(e),
                };
                AssertResult::Body { actual: body_actual(http_response), expected, source_info }
            },
            Bytes::Base64 { space0, value, space1 } => AssertResult::Body {
                actual: Ok(Value::Bytes(http_response.body.clone())),
                expected: Ok(Value::Bytes(value)),
                source_info: SourceInfo { start: space0.source_info.end, end: space1.source_info.start },
            },
            Bytes::File { .. } => {
                let expected = match file {
                    Some(Ok(c)) => Ok(Value::Bytes(c)),
                    Some(Err(e)) => Err(e),
                    None => Ok(Value::Bytes(Vec::new())),
                };
                AssertResult::Body { actual: Ok(Value::Bytes(http_response.body.clone())), expected, source_info: space_source_info }
            },
        }
    }
}


/// The results of the asserts of a response, in order: version, status, each header,
/// the body when one is expected, then each explicit assert with what its query gave.
pub open spec fn asserts_result(
    spec: Response,
    vs: Seq<(String, Value)>,
    resp: HttpResponse,
    file: Option<Result<Vec<u8>, Error>>,
    actuals: Seq<Result<Option<Value>, Error>>,
    r: Seq<AssertResult>,
) -> bool {
    let nh: int = spec.headers@.len() as int;
    let nb: int = if spec.body is Some { 1 } else { 0 };
    &&& r.len() == 2 + nh + nb + spec.asserts@.len()
    &&& version_result(spec.version, resp, r[0])
    &&& status_result(spec.status, resp, r[1])
    &&& forall|i: int| 0 <= i < nh ==> header_result(#[trigger] spec.headers@[i], vs, resp, r[2 + i])
    &&& spec.body matches Some(b) ==> body_result(b, vs, resp, file, r[2 + nh])
    &&& forall|i: int| 0 <= i < spec.asserts@.len()
        ==> explicit_result(#[trigger] spec.asserts@[i], vs, actuals[i], r[2 + nh + nb + i])
}

impl Response {
    /// The results of the asserts of the expected response on a response: the version,
    /// the status, the headers, the body (`file` is what was read of the file that a
    /// `file,` body names), then the explicit asserts, given what their queries gave.
    pub fn eval_asserts(
        self,
        variables: &Vec<(String, Value)>,
        http_response: HttpResponse,
        file: Option<Result<Vec<u8>, Error>>,
        actuals: Vec<Result<Option<Value>, Error>>,
    ) -> (r: Vec<AssertResult>)
        requires
            actuals@.len() == self.asserts@.len(),
            self.body matches Some(b) ==> (b.value is File ==> file is Some),
            forall|i: int| 0 <= i < actuals@.len() ==> checkable(self.asserts@[i], variables@, #[trigger] actuals@[i]),
        ensures
            asserts_result(self, variables@, http_response, file, actuals@, r@),
    {
        let ghost me = self;
        let ghost acts = actuals@;
        let ghost f = file;
        let mut asserts: Vec<AssertResult> = Vec::new();
        asserts.push(AssertResult::Version {
            actual: http_response.version.to_string(),
            expected: self.version.value.as_str(),
            source_info: self.version.source_info,
        });
        asserts.push(AssertResult::Status {
            actual: http_response.status as u64,
            expected: self.status.value,
            source_info: self.status.source_info,
        });
        let mut headers = self.headers;
        let n = headers.len();
        let mut i: usize = 0;
        while i < n
            invariant
                me == self,
                n == me.headers@.len(),
                i <= n,
                headers@ == me.headers@.skip(i as int),
                asserts@.len() == 2 + i,
                version_result(me.version, http_response, asserts@[0]),
                status_result(me.status, http_response, asserts@[1]),
                forall|k: int| 0 <= k < i ==> header_result(#[trigger] me.headers@[k], variables@, http_response, asserts@[2 + k]),
            decreases n - i,
        {
            assert(me.headers@.skip(i as int)[0] == me.headers@[i as int]);
            let h = headers.remove(0);
            asserts.push(h.eval_assert(variables, &http_response));
            assert(me.headers@.skip(i as int).remove(0) =~= me.headers@.skip(i + 1));
            i += 1;
        }
        let nb: usize = match self.body {
            Some(b) => {
                asserts.push(b.eval_assert(variables, &http_response, file));
                1
            },
            None => 0,
        };
        let mut explicit = self.asserts;
        let mut actuals = actuals;
        let m = explicit.len();
        let mut j: usize = 0;
        while j < m
            invariant
                me == self,
                n == me.headers@.len(),
                m == me.asserts@.len(),
                nb == (if me.body is Some { 1int } else { 0int }),
                j <= m,
                explicit@ == me.asserts@.skip(j as int),
                actuals@ == acts.skip(j as int),
                acts.len() == m,
                forall|k: int| 0 <= k < acts.len() ==> checkable(me.asserts@[k], variables@, #[trigger] acts[k]),
                asserts@.len() == 2 + n + nb + j,
                version_result(me.version, http_response, asserts@[0]),
                status_result(me.status, http_response, asserts@[1]),
                forall|k: int| 0 <= k < n ==> header_result(#[trigger] me.headers@[k], variables@, http_response, asserts@[2 + k]),
                me.body matches Some(b) ==> body_result(b, variables@, http_response, f, asserts@[2 + n]),
                forall|k: int| 0 <= k < j ==> explicit_result(#[trigger] me.asserts@[k], variables@, acts[k], asserts@[2 + n + nb + k]),
            decreases m - j,
        {
            assert(me.asserts@.skip(j as int)[0] == me.asserts@[j as int]);
            assert(acts.skip(j as int)[0] == acts[j as int]);
            let a = explicit.remove(0);
            let actual = actuals.remove(0);
            assert(checkable(me.asserts@[j as int], variables@, acts[j as int]));
            asserts.push(a.eval(variables, actual));
            assert(me.asserts@.skip(j as int).remove(0) =~= me.asserts@.skip(j + 1));
            assert(acts.skip(j as int).remove(0) =~= acts.skip(j + 1));
            j += 1;
        }
        asserts
    }
}


/// The results of the captures, given what their queries gave: every captured value when
/// each capture succeeds, else the error of the first that fails.
pub open spec fn captures_result(
    cs: Seq<Capture>,
    vs: Seq<(String, Value)>,
    actuals: Seq<Result<Option<Value>, Error>>,
    r: Result<Vec<CaptureResult>, Error>,
) -> bool {
    match r {
        Ok(l) => {
            &&& forall|i: int| 0 <= i < cs.len() ==> capture_succeeds(#[trigger] cs[i], vs, actuals[i])
            &&& l@.len() == cs.len()
            &&& forall|i: int| 0 <= i < cs.len() ==> capture_gives(#[trigger] cs[i], vs, actuals[i], l@[i])
        },
        Err(e) => exists|k: int| {
            &&& 0 <= k < cs.len()
            &&& forall|i: int| 0 <= i < k ==> capture_succeeds(#[trigger] cs[i], vs, actuals[i])
            &&& !capture_succeeds(#[trigger] cs[k], vs, actuals[k])
            &&& capture_fails(cs[k], vs, actuals[k], e)
        },
    }
}

impl Response {
    /// The captured values of the expected response, given what their queries gave on
    /// the response; the first capture that fails gives the error.
    pub fn eval_captures(self, variables: &Vec<(String, Value)>, actuals: Vec<Result<Option<Value>, Error>>) -> (r: Result<Vec<CaptureResult>, Error>)
        requires
            actuals@.len() == self.captures@.len(),
        ensures
            captures_result(self.captures@, variables@, actuals@, r),
    {
        let ghost cs = self.captures@;
        let ghost acts = actuals@;
        assert(acts == actuals@);
        let mut captures = self.captures;
        let mut rest = actuals;
        let mut results: Vec<CaptureResult> = Vec::new();
        let n = captures.len();
        let mut i: usize = 0;
        while i < n
            invariant
                n == cs.len(),
                acts.len() == n,
                i <= n,
                captures@ == cs.skip(i as int),
                rest@ == acts.skip(i as int),
                cs == self.captures@,
                acts == actuals@,
                results@.len() == i,
                forall|k: int| 0 <= k < i ==> capture_succeeds(#[trigger] cs[k], variables@, acts[k]),
                forall|k: int| 0 <= k < i ==> capture_gives(#[trigger] cs[k], variables@, acts[k], results@[k]),
            decreases n - i,
        {
            assert(cs.skip(i as int)[0] == cs[i as int]);
            assert(acts.skip(i as int)[0] == acts[i as int]);
            let c = captures.remove(0);
            let actual = rest.remove(0);
            assert(cs.skip(i as int).remove(0) =~= cs.skip(i + 1));
            assert(acts.skip(i as int).remove(0) =~= acts.skip(i + 1));
            match c.eval(variables, actual) {
                Ok(cr) => {
                    results.push(cr);
                },
                Err(e) => {
                    assert(!capture_succeeds(cs[i as int], variables@, acts[i as int]));
                    assert(capture_fails(cs[i as int], variables@, acts[i as int], e));
                    assert(forall|k: int| 0 <= k < i ==> capture_succeeds(#[trigger] cs[k], variables@, acts[k]));
                    return Err(e);
                },
            }
            i += 1;
        }
        Ok(results)
    }
}


/// The bytes of a body: the UTF-8 text of a text, JSON or XML body, the decoded bytes of
/// a base64 body, or what was read of the file a `file,` body names (`file`).
pub open spec fn body_bytes(b: Bytes, vs: Seq<(String, Value)>, file: Option<Result<Vec<u8>, Error>>, r: Result<Vec<u8>, Error>) -> bool {
    match b {
        Bytes::RawString { value } => match template_text(value@.elements, vs) {
            Ok(t) => r matches Ok(x) && x@ == encode_utf8(t),
            Err(u) => r matches Err(e) && undefined_error(e, u),
        },
        Bytes::Json { value } => match json_text(json_model(value), vs) {
            Ok(t) => r matches Ok(x) && x@ == encode_utf8(t),
            Err(u) => r matches Err(e) && undefined_error(e, u),
        },
        Bytes::Xml { value } => r matches Ok(x) && x@ == encode_utf8(value@),
        Bytes::Base64 { value, .. } => r matches Ok(x) && x@ == value@,
        Bytes::File { .. } => match file {
            Some(Ok(c)) => r matches Ok(x) && x@ == c@,
            Some(Err(e)) => r matches Err(f) && f == e,
            None => false,
        },
    }
}

/// The UTF-8 bytes of a text.
fn utf8_bytes(s: String) -> (b: Vec<u8>)
    ensures
        b@ == encode_utf8(s@),
{
    s.as_str().as_bytes_vec()
}

impl Bytes {
    /// The bytes of the body; `file` is what was read of the file a `file,` body names.
    pub fn eval(self, variables: &Vec<(String, Value)>, file: Option<Result<Vec<u8>, Error>>) -> (r: Result<Vec<u8>, Error>)
        requires
            self is File ==> file is Some,
        ensures
            body_bytes(self, variables@, file, r),
    {
        match self {
            Bytes::RawString { value } => match value.eval(variables) {
                Ok(t) => Ok(utf8_bytes(t)),
                Err(e) => Err(e),
            },
            Bytes::Json { value } => match value.eval(variables) {
                Ok(t) => Ok(utf8_bytes(t)),
                Err(e) => Err(e),
            },
            Bytes::Xml { value } => Ok(utf8_bytes(value)),
            Bytes::Base64 { value, .. } => Ok(value),
            Bytes::File { .. } => match file {
                Some(r) => r,
                None => Ok(Vec::new()),
            },
        }
    }
}

impl Body {
    /// The bytes of the body; `file` is what was read of the file a `file,` body names.
    pub fn eval(self, variables: &Vec<(String, Value)>, file: Option<Result<Vec<u8>, Error>>) -> (r: Result<Vec<u8>, Error>)
        requires
            self.value is File ==> file is Some,
        ensures
            body_bytes(self.value, variables@, file, r),
    {
        self.value.eval(variables, file)
    }
}

} // verus!
