use vstd::prelude::*;

use crate::common::{SourceInfo, Value};
use crate::http::libcurl::{
    FileParam, HttpError, Method, MultipartParam, Param, Request as HttpRequest, RequestCookie, Response as CurlResponse,
};
use crate::runner::assert_result::{assert_errors_copied, errors_copied};
use crate::json::{json_model, Template};
use crate::runner::json_eval::{json_text, template_text, undefined_error};
use crate::runner::response::{body_bytes, Body, Bytes, KeyValue};
use crate::runner::capture::Capture;
use crate::runner::json_eval::var_lookup;
use crate::runner::predicate::{copy_value, same_value};
use crate::runner::response::{captures_result, Response};
use crate::runner::results::{AssertResult, CaptureResult, EntryResult, Error, RunnerError};
use crate::runner::variables::{last_capture, update_variables};
use crate::text::lit;

verus! {

/// A part of a multipart form as written: a text parameter, or a file with its name,
/// where the file name is written, and the content type written for it, if any.
#[derive(Clone, Debug, PartialEq, Eq)]
pub enum MultipartSpec {
    Param(KeyValue),
    File { key: String, filename: String, filename_source_info: SourceInfo, content_type: Option<String> },
}

/// A request as written in an entry: method, URL, headers, query and form parameters,
/// cookies, multipart form and body.
#[derive(Debug, PartialEq, Eq)]
pub struct Request {
    pub method: Method,
    pub url: Template,
    pub headers: Vec<KeyValue>,
    pub querystring: Vec<KeyValue>,
    pub form: Vec<KeyValue>,
    pub cookies: Vec<RequestCookie>,
    pub multipart: Vec<MultipartSpec>,
    pub body: Option<Body>,
}

/// The names and texts of key-values, in order, or the first undefined variable.
pub open spec fn pairs_text(kvs: Seq<KeyValue>, vs: Seq<(String, Value)>) -> Result<Seq<(Seq<char>, Seq<char>)>, (SourceInfo, Seq<char>)>
    decreases kvs.len(),
{
    if kvs.len() == 0 {
        Ok(Seq::empty())
    } else {
        match pairs_text(kvs.drop_last(), vs) {
            Err(u) => Err(u),
            Ok(ps) => match template_text(kvs.last().value@.elements, vs) {
                Err(u) => Err(u),
                Ok(t) => Ok(ps.push((kvs.last().key@, t))),
            },
        }
    }
}

/// The names and values of parameters.
pub open spec fn params_view(ps: Seq<Param>) -> Seq<(Seq<char>, Seq<char>)> {
    ps.map_values(|p: Param| (p.name@, p.value@))
}

/// An error of the first key-values is the error of all of them.
proof fn lemma_pairs_error_stays(kvs: Seq<KeyValue>, vs: Seq<(String, Value)>, n: int)
    requires
        0 <= n <= kvs.len(),
        pairs_text(kvs.take(n), vs) is Err,
    ensures
        pairs_text(kvs, vs) == pairs_text(kvs.take(n), vs),
    decreases kvs.len() - n,
{
    if n < kvs.len() {
        assert(kvs.take(n + 1).drop_last() =~= kvs.take(n));
        lemma_pairs_error_stays(kvs, vs, n + 1);
    } else {
        assert(kvs.take(n) =~= kvs);
    }
}

/// The names and texts of key-values as parameters, or the first undefined variable.
fn eval_pairs(kvs: Vec<KeyValue>, variables: &Vec<(String, Value)>) -> (r: Result<Vec<Param>, Error>)
    ensures
        match pairs_text(kvs@, variables@) {
            Ok(ps) => r matches Ok(v) && params_view(v@) == ps,
            Err(u) => r matches Err(e) && undefined_error(e, u),
        },
{
    let ghost all = kvs@;
    let mut rest = kvs;
    let mut out: Vec<Param> = Vec::new();
    let n = rest.len();
    let mut i: usize = 0;
    assert(all.take(0) =~= Seq::<KeyValue>::empty());
    assert(params_view(out@) =~= Seq::<(Seq<char>, Seq<char>)>::empty());
    while i < n
        invariant
            n == all.len(),
            all == kvs@,
            i <= n,
            rest@ == all.skip(i as int),
            pairs_text(all.take(i as int), variables@) == Ok::<Seq<(Seq<char>, Seq<char>)>, (SourceInfo, Seq<char>)>(params_view(out@)),
        decreases n - i,
    {
        assert(all.skip(i as int)[0] == all[i as int]);
        let kv = rest.remove(0);
        assert(all.skip(i as int).remove(0) =~= all.skip(i + 1));
        assert(all.take(i + 1).drop_last() =~= all.take(i as int));
        assert(all.take(i + 1).last() == kv);
        let name = kv.key;
        match kv.value.eval(variables) {
            Ok(value) => {
                let ghost before = params_view(out@);
                out.push(Param { name, value });
                assert(params_view(out@) =~= before.push((kv.key@, value@)));
            },
            Err(e) => {
                proof {
                    assert(pairs_text(all.take(i + 1), variables@) is Err);
                    lemma_pairs_error_stays(all, variables@, i + 1);
                }
                return Err(e);
            },
        }
        i += 1;
    }
    assert(all.take(n as int) =~= all);
    Ok(out)
}

/// Whether evaluating a body fails: an undefined variable in its text, or a file that
/// could not be read.
pub open spec fn body_fails(b: Bytes, vs: Seq<(String, Value)>, file: Option<Result<Vec<u8>, Error>>) -> bool {
    match b {
        Bytes::RawString { value } => template_text(value@.elements, vs) is Err,
        Bytes::Json { value } => json_text(json_model(value), vs) is Err,
        Bytes::File { .. } => file matches Some(Err(_)),
        _ => false,
    }
}

/// Whether a part of a multipart form fails: an undefined variable, or a file that could
/// not be read.
pub open spec fn part_fails(m: MultipartSpec, vs: Seq<(String, Value)>, file: Result<Vec<u8>, Error>) -> bool {
    match m {
        MultipartSpec::Param(kv) => template_text(kv.value@.elements, vs) is Err,
        MultipartSpec::File { .. } => file is Err,
    }
}

/// The error of a part of a multipart form that fails.
pub open spec fn part_error(m: MultipartSpec, vs: Seq<(String, Value)>, file: Result<Vec<u8>, Error>, e: Error) -> bool {
    match m {
        MultipartSpec::Param(kv) => match template_text(kv.value@.elements, vs) {
            Err(u) => undefined_error(e, u),
            Ok(_) => false,
        },
        MultipartSpec::File { .. } => file matches Err(f) && f == e,
    }
}

/// The part of a multipart form that is sent: a text parameter with its text, or the
/// file's name, content and content type (`application/octet-stream` unless one is
/// written).
pub open spec fn part_sent(m: MultipartSpec, vs: Seq<(String, Value)>, file: Result<Vec<u8>, Error>, p: MultipartParam) -> bool {
    match m {
        MultipartSpec::Param(kv) => match template_text(kv.value@.elements, vs) {
            Ok(t) => p matches MultipartParam::Param(q) && q.name@ == kv.key@ && q.value@ == t,
            Err(_) => false,
        },
        MultipartSpec::File { key, filename, content_type, .. } => match file {
            Ok(data) => {
                &&& p matches MultipartParam::FileParam(f)
                &&& p->FileParam_0.name@ == key@
                &&& p->FileParam_0.filename@ == filename@
                &&& p->FileParam_0.data@ == data@
                &&& p->FileParam_0.content_type@ == (match content_type {
                    Some(c) => c@,
                    None => "application/octet-stream"@,
                })
            },
            Err(_) => false,
        },
    }
}

/// Some part of a multipart form fails.
pub open spec fn some_part_fails(ms: Seq<MultipartSpec>, vs: Seq<(String, Value)>, files: Seq<Result<Vec<u8>, Error>>) -> bool {
    exists|k: int| 0 <= k < ms.len() && part_fails(#[trigger] ms[k], vs, files[k])
}

/// The first part of a multipart form that fails.
pub open spec fn first_failing(ms: Seq<MultipartSpec>, vs: Seq<(String, Value)>, files: Seq<Result<Vec<u8>, Error>>) -> int {
    choose|k: int| 0 <= k < ms.len() && part_fails(#[trigger] ms[k], vs, files[k])
        && forall|j: int| 0 <= j < k ==> !part_fails(#[trigger] ms[j], vs, files[j])
}

/// The evaluated request, once its URL, headers and parameters are known: body and
/// multipart form, the first failure being the error.
pub open spec fn request_rest(
    req: Request,
    vs: Seq<(String, Value)>,
    body_file: Option<Result<Vec<u8>, Error>>,
    files: Seq<Result<Vec<u8>, Error>>,
    r: Result<HttpRequest, Error>,
) -> bool {
    match req.body {
        Some(b) if body_fails(b.value, vs, body_file) => r matches Err(e) && body_bytes(b.value, vs, body_file, Err(e)),
        _ => {
            let ms = req.multipart@;
            if some_part_fails(ms, vs, files) {
                let k = first_failing(ms, vs, files);
                r matches Err(e) && part_error(ms[k], vs, files[k], e)
            } else {
                &&& r matches Ok(q)
                &&& match req.body {
                    Some(b) => body_bytes(b.value, vs, body_file, Ok(r->Ok_0.body)),
                    None => r->Ok_0.body@.len() == 0,
                }
                &&& r->Ok_0.multipart@.len() == ms.len()
                &&& forall|j: int| 0 <= j < ms.len() ==> part_sent(#[trigger] ms[j], vs, files[j], r->Ok_0.multipart@[j])
            }
        },
    }
}

/// The request that an entry sends, given what was read of the files it names: its
/// method; its URL, headers, query and form parameters, the first undefined variable
/// being the error; its cookies; then its body and multipart form.
pub open spec fn request_result(
    req: Request,
    vs: Seq<(String, Value)>,
    body_file: Option<Result<Vec<u8>, Error>>,
    files: Seq<Result<Vec<u8>, Error>>,
    r: Result<HttpRequest, Error>,
) -> bool {
    match template_text(req.url@.elements, vs) {
        Err(u) => r matches Err(e) && undefined_error(e, u),
        Ok(url) => match pairs_text(req.headers@, vs) {
            Err(u) => r matches Err(e) && undefined_error(e, u),
            Ok(hs) => match pairs_text(req.querystring@, vs) {
                Err(u) => r matches Err(e) && undefined_error(e, u),
                Ok(qs) => match pairs_text(req.form@, vs) {
                    Err(u) => r matches Err(e) && undefined_error(e, u),
                    Ok(fs) => {
                        &&& request_rest(req, vs, body_file, files, r)
                        &&& r matches Ok(q) ==> {
                            &&& q.method == req.method
                            &&& q.url@ == url
                            &&& q.headers@.map_values(|h: crate::http::libcurl::Header| (h.name@, h.value@)) == hs
                            &&& params_view(q.querystring@) == qs
                            &&& params_view(q.form@) == fs
                            &&& q.cookies@ == req.cookies@
                        }
                    },
                },
            },
        },
    }
}


/// The part of a multipart form that is sent.
fn eval_part(m: MultipartSpec, file: Result<Vec<u8>, Error>, variables: &Vec<(String, Value)>) -> (r: Result<MultipartParam, Error>)
    ensures
        part_fails(m, variables@, file) ==> (r matches Err(e) && part_error(m, variables@, file, e)),
        !part_fails(m, variables@, file) ==> (r matches Ok(p) && part_sent(m, variables@, file, p)),
{
    match m {
        MultipartSpec::Param(kv) => {
            let name = kv.key;
            match kv.value.eval(variables) {
                Ok(value) => Ok(MultipartParam::Param(Param { name, value })),
                Err(e) => Err(e),
            }
        },
        MultipartSpec::File { key, filename, content_type, .. } => match file {
            Ok(data) => {
                let content_type = match content_type {
                    Some(c) => c,
                    None => {
                        proof {
                            reveal_strlit("application/octet-stream");
                        }
                        lit("application/octet-stream")
                    },
                };
                Ok(MultipartParam::FileParam(FileParam { name: key, filename, data, content_type }))
            },
            Err(e) => Err(e),
        },
    }
}

/// The parts of a multipart form that are sent, or the error of the first that fails.
fn eval_multipart(ms: Vec<MultipartSpec>, files: Vec<Result<Vec<u8>, Error>>, variables: &Vec<(String, Value)>) -> (r: Result<Vec<MultipartParam>, Error>)
    requires
        files@.len() == ms@.len(),
    ensures
        some_part_fails(ms@, variables@, files@) ==> (r matches Err(e)
            && part_error(ms@[first_failing(ms@, variables@, files@)], variables@, files@[first_failing(ms@, variables@, files@)], e)),
        !some_part_fails(ms@, variables@, files@) ==> (r matches Ok(v) && v@.len() == ms@.len()
            && forall|j: int| 0 <= j < ms@.len() ==> part_sent(#[trigger] ms@[j], variables@, files@[j], v@[j])),
{
    let ghost all = ms@;
    let ghost fs = files@;
    let mut rest = ms;
    let mut rest_files = files;
    let mut out: Vec<MultipartParam> = Vec::new();
    let n = rest.len();
    let mut i: usize = 0;
    while i < n
        invariant
            n == all.len(),
            fs.len() == n,
            all == ms@,
            fs == files@,
            i <= n,
            rest@ == all.skip(i as int),
            rest_files@ == fs.skip(i as int),
            out@.len() == i,
            forall|j: int| 0 <= j < i ==> !part_fails(#[trigger] all[j], variables@, fs[j]),
            forall|j: int| 0 <= j < i ==> part_sent(#[trigger] all[j], variables@, fs[j], out@[j]),
        decreases n - i,
    {
        assert(all.skip(i as int)[0] == all[i as int]);
        assert(fs.skip(i as int)[0] == fs[i as int]);
        let m = rest.remove(0);
        let f = rest_files.remove(0);
        assert(all.skip(i as int).remove(0) =~= all.skip(i + 1));
        assert(fs.skip(i as int).remove(0) =~= fs.skip(i + 1));
        match eval_part(m, f, variables) {
            Ok(p) => {
                out.push(p);
            },
            Err(e) => {
                proof {
                    assert(part_fails(all[i as int], variables@, fs[i as int]));
                    assert(some_part_fails(all, variables@, fs));
                    let k = first_failing(all, variables@, fs);
                    assert(0 <= i < all.len() && part_fails(all[i as int], variables@, fs[i as int])
                        && forall|j: int| 0 <= j < i ==> !part_fails(#[trigger] all[j], variables@, fs[j]));
                    if k < i {
                        assert(!part_fails(all[k], variables@, fs[k]));
                    } else if k > i {
                        assert(!part_fails(all[i as int], variables@, fs[i as int]));
                    }
                    assert(k == i);
                }
                return Err(e);
            },
        }
        i += 1;
    }
    assert(!some_part_fails(all, variables@, fs));
    Ok(out)
}

/// Parameters as headers.
fn headers_of(ps: Vec<Param>) -> (hs: Vec<crate::http::libcurl::Header>)
    ensures
        hs@.map_values(|h: crate::http::libcurl::Header| (h.name@, h.value@)) == params_view(ps@),
{
    let ghost all = ps@;
    let mut rest = ps;
    let mut hs: Vec<crate::http::libcurl::Header> = Vec::new();
    let n = rest.len();
    let mut i: usize = 0;
    while i < n
        invariant
            n == all.len(),
            i <= n,
            rest@ == all.skip(i as int),
            hs@.map_values(|h: crate::http::libcurl::Header| (h.name@, h.value@)) == params_view(all.take(i as int)),
        decreases n - i,
    {
        assert(all.skip(i as int)[0] == all[i as int]);
        let p = rest.remove(0);
        assert(all.skip(i as int).remove(0) =~= all.skip(i + 1));
        let ghost before = hs@.map_values(|h: crate::http::libcurl::Header| (h.name@, h.value@));
        let ghost pv = (p.name@, p.value@);
        hs.push(crate::http::libcurl::Header { name: p.name, value: p.value });
        assert(hs@.map_values(|h: crate::http::libcurl::Header| (h.name@, h.value@)) =~= before.push(pv));
        assert(all.take(i + 1) =~= all.take(i as int).push(all[i as int]));
        assert(params_view(all.take(i + 1)) =~= params_view(all.take(i as int)).push(pv));
        i += 1;
    }
    assert(all.take(n as int) =~= all);
    hs
}

impl Request {
    /// The request that the entry sends, given what was read of the file its body names
    /// (`body_file`) and of each file of its multipart form (`files`, one per part).
    pub fn eval(
        self,
        variables: &Vec<(String, Value)>,
        body_file: Option<Result<Vec<u8>, Error>>,
        files: Vec<Result<Vec<u8>, Error>>,
    ) -> (r: Result<HttpRequest, Error>)
        requires
            files@.len() == self.multipart@.len(),
            self.body matches Some(b) ==> (b.value is File ==> body_file is Some),
        ensures
            request_result(self, variables@, body_file, files@, r),
    {
        let ghost me = self;
        let method = self.method;
        let url = match self.url.eval(variables) {
            Ok(u) => u,
            Err(e) => return Err(e),
        };
        let headers = match eval_pairs(self.headers, variables) {
            Ok(p) => headers_of(p),
            Err(e) => return Err(e),
        };
        let querystring = match eval_pairs(self.querystring, variables) {
            Ok(p) => p,
            Err(e) => return Err(e),
        };
        let form = match eval_pairs(self.form, variables) {
            Ok(p) => p,
            Err(e) => return Err(e),
        };
        let cookies = self.cookies;
        let body = match self.body {
            Some(b) => match b.eval(variables, body_file) {
                Ok(x) => x,
                Err(e) => return Err(e),
            },
            None => Vec::new(),
        };
        let multipart = match eval_multipart(self.multipart, files, variables) {
            Ok(m) => m,
            Err(e) => return Err(e),
        };
        Ok(HttpRequest { method, url, headers, querystring, form, multipart, cookies, body })
    }
}


/// Copies of captured values.
fn copy_captures(cs: &Vec<CaptureResult>) -> (r: Vec<CaptureResult>)
    ensures
        r@.len() == cs@.len(),
        forall|i: int| 0 <= i < cs@.len() ==> #[trigger] r@[i].name@ == cs@[i].name@ && same_value(cs@[i].value, r@[i].value),
{
    let mut r: Vec<CaptureResult> = Vec::new();
    let mut i: usize = 0;
    while i < cs.len()
        invariant
            i <= cs.len(),
            r@.len() == i,
            forall|j: int| 0 <= j < i ==> (#[trigger] r@[j]).name@ == cs@[j].name@ && same_value(cs@[j].value, r@[j].value),
        decreases cs.len() - i,
    {
        let c = CaptureResult { name: cs[i].name.clone(), value: copy_value(&cs[i].value) };
        r.push(c);
        i += 1;
    }
    r
}

/// The last captures of a name in copies are copies of the last captures of that name.
proof fn lemma_last_capture_copies(a: Seq<CaptureResult>, b: Seq<CaptureResult>, m: Seq<char>)
    requires
        a.len() == b.len(),
        forall|i: int| 0 <= i < a.len() ==> (#[trigger] b[i]).name@ == a[i].name@ && same_value(a[i].value, b[i].value),
    ensures
        last_capture(a, m) is None <==> last_capture(b, m) is None,
        last_capture(a, m) matches Some(v) ==> (last_capture(b, m) matches Some(w) && same_value(v, w)),
    decreases a.len(),
{
    if a.len() > 0 {
        assert(b[b.len() - 1].name@ == a[a.len() - 1].name@);
        if a.last().name@ != m {
            let a2 = a.drop_last();
            let b2 = b.drop_last();
            assert forall|i: int| 0 <= i < a2.len() implies (#[trigger] b2[i]).name@ == a2[i].name@ && same_value(a2[i].value, b2[i].value) by {
                assert(b2[i] == b[i]);
                assert(a2[i] == a[i]);
                assert(b[i].name@ == a[i].name@ && same_value(a[i].value, b[i].value));
            }
            lemma_last_capture_copies(a.drop_last(), b.drop_last(), m);
        }
    }
}

impl Response {
    /// The captures of the expected response, given the values of their queries: when
    /// they all succeed each captured value is also set as a variable, the later of two
    /// of one name winning; else the variables are left as they are.
    pub fn run_captures(self, variables: &mut Vec<(String, Value)>, actuals: Vec<Result<Option<Value>, Error>>) -> (r: Result<Vec<CaptureResult>, Error>)
        requires
            actuals@.len() == self.captures@.len(),
        ensures
            captures_result(self.captures@, old(variables)@, actuals@, r),
            r is Err ==> final(variables)@ == old(variables)@,
            r matches Ok(cs) ==> forall|m: Seq<char>| #[trigger] last_capture(cs@, m) is None
                ==> var_lookup(final(variables)@, m) == var_lookup(old(variables)@, m),
            r matches Ok(cs) ==> forall|m: Seq<char>| #[trigger] last_capture(cs@, m) is Some
                ==> (var_lookup(final(variables)@, m) is Some
                    && same_value(last_capture(cs@, m)->Some_0, var_lookup(final(variables)@, m)->Some_0)),
    {
        match self.eval_captures(&*variables, actuals) {
            Ok(cs) => {
                let copies = copy_captures(&cs);
                let ghost cps = copies@;
                update_variables(variables, copies);
                proof {
                    assert forall|i: int| 0 <= i < cs@.len() implies (#[trigger] cps[i]).name@ == cs@[i].name@
                        && same_value(cs@[i].value, cps[i].value) by {
                        assert(cps[i].name@ == cs@[i].name@);
                    }
                    assert forall|m: Seq<char>| #[trigger] last_capture(cs@, m) is None
                        implies var_lookup(variables@, m) == var_lookup(old(variables)@, m) by {
                        lemma_last_capture_copies(cs@, cps, m);
                    }
                    assert forall|m: Seq<char>| #[trigger] last_capture(cs@, m) is Some
                        implies (var_lookup(variables@, m) is Some
                            && same_value(last_capture(cs@, m)->Some_0, var_lookup(variables@, m)->Some_0)) by {
                        lemma_last_capture_copies(cs@, cps, m);
                    }
                }
                Ok(cs)
            },
            Err(e) => Err(e),
        }
    }
}


/// The runner error of an HTTP client error; an invalid URL and any other failure name
/// the request's URL.
pub open spec fn http_runner_error(e: HttpError, url: Seq<char>, r: RunnerError) -> bool {
    match e {
        HttpError::CouldNotResolveProxyName => r is CouldNotResolveProxyName,
        HttpError::CouldNotResolveHost => r is CouldNotResolveHost,
        HttpError::FailToConnect => r is FailToConnect,
        HttpError::Timeout => r is Timeout,
        HttpError::TooManyRedirect => r is TooManyRedirect,
        HttpError::CouldNotParseResponse => r is CouldNotParseResponse,
        HttpError::SSLCertificate => r is SSLCertificate,
        HttpError::InvalidUrl => r matches RunnerError::InvalidURL(u) && u@ == url,
        HttpError::Other { description } => r matches RunnerError::HttpConnection { url: u, message: m }
            && u@ == url && m@ == description@,
    }
}

/// The runner error of an HTTP client error.
pub fn runner_error_of(e: HttpError, url: &String) -> (r: RunnerError)
    ensures
        http_runner_error(e, url@, r),
{
    match e {
        HttpError::CouldNotResolveProxyName => RunnerError::CouldNotResolveProxyName,
        HttpError::CouldNotResolveHost => RunnerError::CouldNotResolveHost,
        HttpError::FailToConnect => RunnerError::FailToConnect,
        HttpError::Timeout => RunnerError::Timeout,
        HttpError::TooManyRedirect => RunnerError::TooManyRedirect,
        HttpError::CouldNotParseResponse => RunnerError::CouldNotParseResponse,
        HttpError::SSLCertificate => RunnerError::SSLCertificate,
        HttpError::InvalidUrl => RunnerError::InvalidURL(url.clone()),
        HttpError::Other { description } => RunnerError::HttpConnection { url: url.clone(), message: description },
    }
}

/// The result of an entry that stopped on an error before any response: the request if
/// there was one, no response, no capture or assert, the one error, no time.
pub fn entry_error_result(request: Option<HttpRequest>, e: Error) -> (r: EntryResult)
    ensures
        r.request == request,
        r.response is None,
        r.captures@.len() == 0,
        r.asserts@.len() == 0,
        r.errors@ == seq![e],
        r.time_in_ms == 0,
{
    let ghost e0 = e;
    let mut errors: Vec<Error> = Vec::new();
    errors.push(e);
    assert(errors@ =~= seq![e0]);
    EntryResult { request, response: None, captures: Vec::new(), asserts: Vec::new(), errors, time_in_ms: 0 }
}

/// The result of an entry whose request the client could not run: the error is the
/// client's, mapped to a runner error, at the entry's URL.
pub fn http_error_result(request: HttpRequest, url_source_info: SourceInfo, e: HttpError) -> (r: EntryResult)
    ensures
        r.request == Some(request),
        r.response is None,
        r.captures@.len() == 0,
        r.asserts@.len() == 0,
        r.errors@.len() == 1,
        r.errors@[0].source_info == url_source_info,
        !r.errors@[0].assert,
        http_runner_error(e, request.url@, r.errors@[0].inner),
        r.time_in_ms == 0,
{
    let inner = runner_error_of(e, &request.url);
    entry_error_result(Some(request), Error { source_info: url_source_info, inner, assert: false })
}

/// The result of an entry that got its response: the request, the response, the captured
/// values, the asserts, the errors of the asserts that failed (copied, each marked as
/// raised by an assert) and the time taken.
pub fn entry_result(
    request: HttpRequest,
    response: CurlResponse,
    captures: Vec<CaptureResult>,
    asserts: Vec<AssertResult>,
    time_in_ms: u128,
) -> (r: EntryResult)
    ensures
        r.request == Some(request),
        r.response == Some(response),
        r.captures == captures,
        r.asserts == asserts,
        errors_copied(asserts@, r.errors@),
        r.time_in_ms == time_in_ms,
{
    let errors = assert_errors_copied(&asserts);
    EntryResult { request: Some(request), response: Some(response), captures, asserts, errors, time_in_ms }
}

} // verus!
