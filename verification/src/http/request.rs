use vstd::prelude::*;

use crate::http::cookie::{copy_response_cookie, response_cookie_views, ResponseCookie, ResponseCookieView};
use crate::http::header::Header;
use crate::http::response::{first_named, matching_values, opt_string, name_matches, Encoding};
use vstd::utf8::{decode_utf8, encode_utf8, valid_utf8};

use crate::fs::utf8_string;
use crate::percent::{encode_fragment, fragment_encoded, percent_decode_bytes, percent_decoded};
use crate::text::{append_str, chars_of, contains_seq, join, join_strings, lit, lowercase, nat_decimal, push_char, seqs, split_chars, split_on, str_contains, str_eq, string_of, to_lowercase, u64_to_string, views};

verus! {

/// A URL, split in its parts.
#[derive(Clone, Debug, PartialEq, Eq)]
pub struct Url {
    pub scheme: String,
    pub host: String,
    pub port: Option<u16>,
    pub path: String,
    pub query_string: String,
}

/// A query or form parameter.
#[derive(Clone, Debug, PartialEq, Eq)]
pub struct Param {
    pub name: String,
    pub value: String,
}

/// An HTTP request.
#[derive(Clone, Debug, PartialEq, Eq)]
pub struct Request {
    pub method: Method,
    pub url: Url,
    pub querystring: Vec<Param>,
    pub headers: Vec<Header>,
    pub cookies: Vec<ResponseCookie>,
    pub body: Vec<u8>,
    pub multipart: Vec<MultipartParam>,
}

/// A part of a multipart form.
#[derive(Clone, Debug, PartialEq, Eq)]
pub enum MultipartParam {
    TextParam { name: String, value: String },
    FileParam { name: String, filename: String, content_type: Option<String> },
}

/// The encoding of a request body.
#[derive(Clone, Copy, Debug, PartialEq, Eq)]
pub enum RequestEncoding {
    Utf8,
    Latin1,
}

/// An HTTP method.
#[derive(Clone, Copy, Debug, PartialEq, Eq)]
pub enum Method {
    Get,
    Head,
    Post,
    Put,
    Delete,
    Connect,
    Options,
    Trace,
    Patch,
}

/// The name of an encoding: `utf8` or `iso8859-1`.
pub open spec fn encoding_name(e: RequestEncoding) -> Seq<char> {
    match e {
        RequestEncoding::Utf8 => "utf8"@,
        RequestEncoding::Latin1 => "iso8859-1"@,
    }
}

impl RequestEncoding {
    /// The name of the encoding.
    pub fn to_string(&self) -> (s: String)
        ensures
            s@ == encoding_name(*self),
    {
        match self {
            RequestEncoding::Utf8 => lit("utf8"),
            RequestEncoding::Latin1 => lit("iso8859-1"),
        }
    }
}

/// Some header is named exactly `name`.
pub open spec fn has_header_named(headers: Seq<Header>, name: Seq<char>) -> bool {
    exists|i: int| 0 <= i < headers.len() && #[trigger] headers[i].name@ == name
}

/// Whether some header is named exactly `name`.
pub fn has_header(headers: &[Header], name: String) -> (b: bool)
    ensures
        b == has_header_named(headers@, name@),
{
    let mut i: usize = 0;
    while i < headers.len()
        invariant
            i <= headers.len(),
            forall|k: int| 0 <= k < i ==> #[trigger] headers@[k].name@ != name@,
        decreases headers.len() - i,
    {
        if str_eq(headers[i].name.as_str(), name.as_str()) {
            return true;
        }
        i += 1;
    }
    false
}

/// The first of a sequence, if any.
pub open spec fn first_of(s: Seq<Seq<char>>) -> Option<Seq<char>> {
    if s.len() > 0 { Some(s[0]) } else { None }
}

/// The request cookie that a session cookie adds: it is added unless the request
/// already has a cookie of that name whose domain is set and equal to its domain.
pub open spec fn session_cookie_added(own: Seq<ResponseCookieView>, c: ResponseCookieView) -> bool {
    match first_named(own, c.name) {
        Some(k) => match k.domain {
            Some(d) => c.domain != Some(d),
            None => true,
        },
        None => true,
    }
}

/// The request cookies after adding session cookies one by one.
pub open spec fn with_session_cookies(own: Seq<ResponseCookieView>, cookies: Seq<ResponseCookieView>) -> Seq<ResponseCookieView>
    decreases cookies.len(),
{
    if cookies.len() == 0 {
        own
    } else {
        let prev = with_session_cookies(own, cookies.drop_last());
        if session_cookie_added(prev, cookies.last()) {
            prev.push(cookies.last())
        } else {
            prev
        }
    }
}

/// The name and value of the first `=` in `s` split: the whole text and an empty value
/// when there is none.
pub open spec fn param_parts(s: Seq<char>) -> (Seq<char>, Seq<char>) {
    if exists|i: int| 0 <= i < s.len() && s[i] == '=' {
        let i = choose|i: int| 0 <= i < s.len() && s[i] == '=' && forall|j: int| 0 <= j < i ==> s[j] != '=';
        (s.take(i), s.skip(i + 1))
    } else {
        (s, Seq::empty())
    }
}

impl Param {
    /// Reads a `name=value` parameter.
    pub fn parse(s: &str) -> (p: Param)
        ensures
            (p.name@, p.value@) == param_parts(s@),
    {
        let chars = chars_of(s);
        let mut i: usize = 0;
        while i < chars.len()
            invariant
                i <= chars.len(),
                chars@ == s@,
                forall|j: int| 0 <= j < i ==> chars@[j] != '=',
            decreases chars.len() - i,
        {
            if chars[i] == '=' {
                let name = string_of(&chars.as_slice()[0..i]);
                let value = string_of(&chars.as_slice()[i + 1..chars.len()]);
                proof {
                    let k = choose|k: int| 0 <= k < s@.len() && s@[k] == '=' && forall|j: int| 0 <= j < k ==> s@[j] != '=';
                    assert(k == i) by {
                        if k < i {
                            assert(chars@[k] != '=');
                        }
                        if k > i {
                            assert(s@[i as int] == '=');
                        }
                    }
                    assert(chars@.subrange(0, i as int) =~= s@.take(i as int));
                    assert(chars@.subrange(i + 1, chars@.len() as int) =~= s@.skip(i + 1));
                }
                return Param { name, value };
            }
            i += 1;
        }
        Param { name: lit(s), value: String::new() }
    }
}

impl Request {
    /// The host of the URL.
    pub fn host(self) -> (h: String)
        ensures
            h@ == self.url.host@,
    {
        self.url.host
    }

    /// The value of the first header named exactly `Content-Type`.
    pub fn content_type(self) -> (r: Option<String>)
        ensures
            opt_string(r) == first_of(matching_values(self.headers@, "Content-Type"@, true)),
    {
        let v = self.get_header("Content-Type", true);
        v
    }

    /// The first cookie of the request named `name`.
    pub fn get_cookie(self, name: String) -> (r: Option<ResponseCookie>)
        ensures
            match r {
                Some(c) => first_named(response_cookie_views(self.cookies@), name@) == Some(c@),
                None => first_named(response_cookie_views(self.cookies@), name@) is None,
            },
    {
        let r = find_cookie(&self.cookies, &name);
        match r {
            Some(i) => {
                let mut cookies = self.cookies;
                Some(cookies.remove(i))
            },
            None => None,
        }
    }

    /// Adds the session cookies: each one unless the request already has a cookie of
    /// that name with the same domain.
    pub fn add_session_cookies(&mut self, cookies: Vec<ResponseCookie>)
        requires
            forall|i: int| 0 <= i < cookies.len() ==> (#[trigger] cookies@[i]).domain is Some,
        ensures
            response_cookie_views(final(self).cookies@) == with_session_cookies(response_cookie_views(old(self).cookies@), response_cookie_views(cookies@)),
            final(self).method == old(self).method,
            final(self).url == old(self).url,
            final(self).querystring == old(self).querystring,
            final(self).headers == old(self).headers,
            final(self).body == old(self).body,
            final(self).multipart == old(self).multipart,
    {
        let ghost own = response_cookie_views(self.cookies@);
        let ghost all = response_cookie_views(cookies@);
        let mut i: usize = 0;
        while i < cookies.len()
            invariant
                i <= cookies.len(),
                all == response_cookie_views(cookies@),
                forall|k: int| 0 <= k < cookies.len() ==> (#[trigger] cookies@[k]).domain is Some,
                response_cookie_views(self.cookies@) == with_session_cookies(own, all.take(i as int)),
                self.method == old(self).method,
                self.url == old(self).url,
                self.querystring == old(self).querystring,
                self.headers == old(self).headers,
                self.body == old(self).body,
                self.multipart == old(self).multipart,
            decreases cookies.len() - i,
        {
            assert(all.take(i + 1).drop_last() =~= all.take(i as int));
            assert(all.take(i + 1).last() == cookies@[i as int]@);
            let cookie = &cookies[i];
            let session_domain = match &cookie.domain {
                Some(d) => d,
                None => {
                    assert(false);
                    return;
                },
            };
            let ghost prev = response_cookie_views(self.cookies@);
            let add = match find_cookie(&self.cookies, &cookie.name) {
                Some(k) => match &self.cookies[k].domain {
                    Some(d) => !str_eq(session_domain.as_str(), d.as_str()),
                    None => true,
                },
                None => true,
            };
            assert(add == session_cookie_added(prev, cookie@));
            if add {
                let c = copy_response_cookie(cookie);
                self.cookies.push(c);
                assert(response_cookie_views(self.cookies@) =~= prev.push(cookie@));
            }
            i += 1;
        }
        assert(all.take(cookies.len() as int) =~= all);
    }

    /// Latin-1 when the `content-type` header says `charset=ISO-8859-1`, else UTF-8.
    pub fn encoding(&self) -> (e: Encoding)
        ensures
            e == (match first_of(matching_values(self.headers@, "content-type"@, true)) {
                Some(v) => if contains_seq(v, "charset=ISO-8859-1"@) { Encoding::Latin1 } else { Encoding::Utf8 },
                None => Encoding::Utf8,
            }),
    {
        if let Some(v) = self.get_header("content-type", true) {
            if str_contains(v.as_str(), "charset=ISO-8859-1") {
                return Encoding::Latin1;
            }
        }
        Encoding::Utf8
    }

    /// The value of the first header named `name`.
    pub fn get_header(&self, name: &str, case_sensitive: bool) -> (r: Option<String>)
        ensures
            opt_string(r) == first_of(matching_values(self.headers@, name@, case_sensitive)),
    {
        let ghost hs = self.headers@;
        let mut i: usize = 0;
        while i < self.headers.len()
            invariant
                i <= self.headers.len(),
                hs == self.headers@,
                matching_values(hs.take(i as int), name@, case_sensitive).len() == 0,
            decreases self.headers.len() - i,
        {
            let header = &self.headers[i];
            let mut m = str_eq(header.name.as_str(), name);
            if !m && !case_sensitive {
                let a = to_lowercase(header.name.as_str());
                let b = to_lowercase(name);
                m = str_eq(a.as_str(), b.as_str());
            }
            proof {
                lemma_matching_values_step(hs, name@, case_sensitive, i as int);
                lemma_matching_values_prefix(hs, name@, case_sensitive, i + 1);
            }
            assert(m == name_matches(hs[i as int].name@, name@, case_sensitive));
            if m {
                let v = header.value.clone();
                assert(v@ == hs[i as int].value@);
                assert(matching_values(hs.take(i + 1), name@, case_sensitive)[0] == v@);
                assert(matching_values(hs, name@, case_sensitive)[0] == v@);
                return Some(v);
            }
            i += 1;
        }
        assert(hs.take(self.headers.len() as int) =~= hs);
        None
    }
}

/// The index of the first cookie named `name`.
fn find_cookie(cookies: &Vec<ResponseCookie>, name: &String) -> (r: Option<usize>)
    ensures
        match r {
            Some(i) => i < cookies.len() && first_named(response_cookie_views(cookies@), name@) == Some(cookies@[i as int]@),
            None => first_named(response_cookie_views(cookies@), name@) is None,
        },
{
    let ghost all = response_cookie_views(cookies@);
    let mut i: usize = 0;
    assert(all.skip(0) =~= all);
    while i < cookies.len()
        invariant
            i <= cookies.len(),
            all == response_cookie_views(cookies@),
            first_named(all, name@) == first_named(all.skip(i as int), name@),
        decreases cookies.len() - i,
    {
        assert(all.skip(i as int)[0] == cookies@[i as int]@);
        if str_eq(cookies[i].name.as_str(), name.as_str()) {
            return Some(i);
        }
        assert(all.skip(i as int).drop_first() =~= all.skip(i + 1));
        i += 1;
    }
    assert(all.skip(i as int) =~= Seq::<ResponseCookieView>::empty());
    None
}

/// One more header adds its value when its name matches.
proof fn lemma_matching_values_step(hs: Seq<Header>, name: Seq<char>, cs: bool, i: int)
    requires
        0 <= i < hs.len(),
    ensures
        matching_values(hs.take(i + 1), name, cs) == (if name_matches(hs[i].name@, name, cs) {
            matching_values(hs.take(i), name, cs).push(hs[i].value@)
        } else {
            matching_values(hs.take(i), name, cs)
        }),
{
    assert(hs.take(i + 1).drop_last() =~= hs.take(i));
    assert(hs.take(i + 1).last() == hs[i]);
}

/// The matching values of a prefix of the headers begin those of all headers.
proof fn lemma_matching_values_prefix(hs: Seq<Header>, name: Seq<char>, cs: bool, n: int)
    requires
        0 <= n <= hs.len(),
    ensures
        matching_values(hs.take(n), name, cs).len() <= matching_values(hs, name, cs).len(),
        forall|k: int| 0 <= k < matching_values(hs.take(n), name, cs).len()
            ==> #[trigger] matching_values(hs.take(n), name, cs)[k] == matching_values(hs, name, cs)[k],
    decreases hs.len() - n,
{
    if n < hs.len() {
        lemma_matching_values_prefix(hs, name, cs, n + 1);
        lemma_matching_values_step(hs, name, cs, n);
        let a = matching_values(hs.take(n), name, cs);
        let b = matching_values(hs.take(n + 1), name, cs);
        assert forall|k: int| 0 <= k < a.len() implies #[trigger] a[k] == matching_values(hs, name, cs)[k] by {
            assert(a[k] == b[k]);
        }
    } else {
        assert(hs.take(n) =~= hs);
    }
}

/// The version of the program, sent in the `User-Agent` header.
pub fn version() -> (s: String)
    ensures
        s@ == "0.1.0"@,
{
    lit("0.1.0")
}

/// The query string: the one of the URL, then each parameter `name=value` with its value
/// percent-encoded, separated by `&` (an `&` also follows a query string of the URL).
pub open spec fn query_with(buf: Seq<char>, ps: Seq<Param>) -> Seq<char>
    decreases ps.len(),
{
    if ps.len() == 0 {
        buf
    } else {
        let b = query_with(buf, ps.drop_last());
        (if b.len() > 0 { b + seq!['&'] } else { b }) + ps.last().name@ + seq!['=']
            + fragment_encoded(encode_utf8(ps.last().value@))
    }
}

/// The query string of a request.
pub open spec fn query_of(r: Request) -> Seq<char> {
    let qs = r.url.query_string@;
    if r.querystring@.len() == 0 {
        qs
    } else {
        query_with(if qs.len() > 0 { qs + seq!['&'] } else { qs }, r.querystring@)
    }
}

/// The URL of a request: scheme, host, port when there is one, path, and the query.
pub open spec fn url_of(r: Request) -> Seq<char> {
    let q = query_of(r);
    r.url.scheme@ + "://"@ + r.url.host@
        + (match r.url.port { Some(p) => seq![':'] + nat_decimal(p as nat), None => Seq::empty() })
        + r.url.path@ + (if q.len() == 0 { q } else { seq!['?'] + q })
}

/// The `Cookie` header value: `name=value` pairs separated by `; `.
pub open spec fn cookie_pairs(cs: Seq<ResponseCookieView>) -> Seq<Seq<char>> {
    cs.map_values(|c: ResponseCookieView| c.name + seq!['='] + c.value)
}

/// The headers sent: those of the request, then `User-Agent` and `Host` unless the
/// request has them, then `Cookie` when there are cookies.
pub open spec fn sent_headers(r: Request) -> Seq<(Seq<char>, Seq<char>)> {
    let own = r.headers@.map_values(|h: Header| (h.name@, h.value@));
    let ua: Seq<(Seq<char>, Seq<char>)> = if has_header_named(r.headers@, "User-Agent"@) {
        Seq::empty()
    } else {
        seq![("User-Agent"@, "hurl/"@ + "0.1.0"@)]
    };
    let host: Seq<(Seq<char>, Seq<char>)> = if has_header_named(r.headers@, "Host"@) {
        Seq::empty()
    } else {
        seq![("Host"@, r.url.host@)]
    };
    let cookie: Seq<(Seq<char>, Seq<char>)> = if r.cookies@.len() == 0 {
        Seq::empty()
    } else {
        seq![("Cookie"@, join(cookie_pairs(response_cookie_views(r.cookies@)), "; "@))]
    };
    own + ua + host + cookie
}

/// The form parameters of a form body: `None` unless the content type is
/// `application/x-www-form-urlencoded`; the body is percent-decoded, then split on `&`
/// (no parameters when it is not UTF-8).
pub open spec fn form_params_of(r: Request) -> Option<Seq<(Seq<char>, Seq<char>)>> {
    if first_of(matching_values(r.headers@, "Content-Type"@, true)) != Some("application/x-www-form-urlencoded"@) {
        None
    } else {
        let d = percent_decoded(r.body@);
        if valid_utf8(d) {
            Some(split_on(decode_utf8(d), '&').map_values(|p: Seq<char>| param_parts(p)))
        } else {
            Some(Seq::empty())
        }
    }
}

impl Request {
    /// The URL of the request, with its query parameters.
    pub fn url(self) -> (s: String)
        ensures
            s@ == url_of(self),
    {
        self.url_text()
    }

    /// The URL of the request, with its query parameters.
    pub(crate) fn url_text(&self) -> (s: String)
        ensures
            s@ == url_of(*self),
    {
        let ghost me = *self;
        let mut q = self.url.query_string.clone();
        if self.querystring.len() > 0 {
            if !q.as_str().is_empty() {
                push_char(&mut q, '&');
            }
            let ghost start = q@;
            assert(start == (if me.url.query_string@.len() > 0 { me.url.query_string@ + seq!['&'] } else { me.url.query_string@ }));
            assert(self.querystring@.take(0) =~= Seq::<Param>::empty());
            let mut i: usize = 0;
            while i < self.querystring.len()
                invariant
                    i <= self.querystring.len(),
                    q@ == query_with(start, self.querystring@.take(i as int)),
                decreases self.querystring.len() - i,
            {
                assert(self.querystring@.take(i + 1).drop_last() =~= self.querystring@.take(i as int));
                assert(self.querystring@.take(i + 1).last() == self.querystring@[i as int]);
                if !q.as_str().is_empty() {
                    push_char(&mut q, '&');
                }
                let param = &self.querystring[i];
                append_str(&mut q, param.name.as_str());
                push_char(&mut q, '=');
                let encoded = encode_fragment(param.value.as_str());
                append_str(&mut q, encoded.as_str());
                i += 1;
            }
            assert(self.querystring@.take(self.querystring.len() as int) =~= self.querystring@);
            assert(q@ == query_of(me));
        } else {
            assert(q@ == query_of(me));
        }
        let mut s = self.url.scheme.clone();
        append_str(&mut s, "://");
        append_str(&mut s, self.url.host.as_str());
        if let Some(p) = self.url.port {
            push_char(&mut s, ':');
            let t = u64_to_string(p as u64);
            append_str(&mut s, t.as_str());
        }
        append_str(&mut s, self.url.path.as_str());
        if !q.as_str().is_empty() {
            push_char(&mut s, '?');
            append_str(&mut s, q.as_str());
        }
        assert(s@ =~= url_of(me));
        s
    }

    /// The headers to send: the request's, the default `User-Agent` and `Host`, and the
    /// cookies.
    pub fn headers(self) -> (hs: Vec<Header>)
        ensures
            hs@.map_values(|h: Header| (h.name@, h.value@)) == sent_headers(self),
    {
        self.headers_to_send()
    }

    /// The headers to send.
    pub(crate) fn headers_to_send(&self) -> (hs: Vec<Header>)
        ensures
            hs@.map_values(|h: Header| (h.name@, h.value@)) == sent_headers(*self),
    {
        let ghost me = *self;
        let mut headers: Vec<Header> = Vec::new();
        let mut i: usize = 0;
        while i < self.headers.len()
            invariant
                i <= self.headers.len(),
                headers@.map_values(|h: Header| (h.name@, h.value@)) == self.headers@.take(i as int).map_values(|h: Header| (h.name@, h.value@)),
            decreases self.headers.len() - i,
        {
            let h = Header { name: self.headers[i].name.clone(), value: self.headers[i].value.clone() };
            let ghost before = headers@;
            headers.push(h);
            assert(headers@.map_values(|h: Header| (h.name@, h.value@)) =~= before.map_values(|h: Header| (h.name@, h.value@)).push((h.name@, h.value@)));
            assert(self.headers@.take(i + 1) =~= self.headers@.take(i as int).push(self.headers@[i as int]));
            i += 1;
            assert(headers@.map_values(|h: Header| (h.name@, h.value@)) =~= self.headers@.take(i as int).map_values(|h: Header| (h.name@, h.value@)));
        }
        assert(self.headers@.take(self.headers.len() as int) =~= self.headers@);
        let ghost p1 = headers@.map_values(|h: Header| (h.name@, h.value@));
        if !has_header(self.headers.as_slice(), lit("User-Agent")) {
            let mut ua = lit("hurl/");
            let v = version();
            append_str(&mut ua, v.as_str());
            headers.push(Header { name: lit("User-Agent"), value: ua });
        }
        let ghost p2 = headers@.map_values(|h: Header| (h.name@, h.value@));
        if !has_header(self.headers.as_slice(), lit("Host")) {
            headers.push(Header { name: lit("Host"), value: self.url.host.clone() });
        }
        let ghost p3 = headers@.map_values(|h: Header| (h.name@, h.value@));
        if self.cookies.len() > 0 {
            let mut pairs: Vec<String> = Vec::new();
            let mut j: usize = 0;
            while j < self.cookies.len()
                invariant
                    j <= self.cookies.len(),
                    views(pairs@) == cookie_pairs(response_cookie_views(self.cookies@)).take(j as int),
                decreases self.cookies.len() - j,
            {
                let mut p = self.cookies[j].name.clone();
                push_char(&mut p, '=');
                append_str(&mut p, self.cookies[j].value.as_str());
                let ghost before = pairs@;
                pairs.push(p);
                assert(views(pairs@) =~= views(before).push(p@));
                let ghost cp = cookie_pairs(response_cookie_views(self.cookies@));
                assert(cp[j as int] == p@);
                assert(cp.take(j + 1) =~= cp.take(j as int).push(cp[j as int]));
                j += 1;
                assert(views(pairs@) =~= cookie_pairs(response_cookie_views(self.cookies@)).take(j as int));
            }
            assert(cookie_pairs(response_cookie_views(self.cookies@)).take(self.cookies.len() as int) =~= cookie_pairs(response_cookie_views(self.cookies@)));
            let value = join_strings(&pairs, "; ");
            headers.push(Header { name: lit("Cookie"), value });
        }
        assert(headers@.map_values(|h: Header| (h.name@, h.value@)) =~= sent_headers(me));
        headers
    }

    /// The form parameters, when the body is a form.
    pub fn form_params(self) -> (r: Option<Vec<Param>>)
        ensures
            match r {
                Some(ps) => form_params_of(self) == Some(ps@.map_values(|p: Param| (p.name@, p.value@))),
                None => form_params_of(self) is None,
            },
    {
        self.form_parameters()
    }

    /// The form parameters, when the body is a form.
    pub(crate) fn form_parameters(&self) -> (r: Option<Vec<Param>>)
        ensures
            match r {
                Some(ps) => form_params_of(*self) == Some(ps@.map_values(|p: Param| (p.name@, p.value@))),
                None => form_params_of(*self) is None,
            },
    {
        let ghost me = *self;
        let ct = self.get_header("Content-Type", true);
        let is_form = match &ct {
            Some(v) => str_eq(v.as_str(), "application/x-www-form-urlencoded"),
            None => false,
        };
        if !is_form {
            return None;
        }
        let decoded = percent_decode_bytes(self.body.as_slice());
        let params = match utf8_string(decoded) {
            Ok(v) => {
                let chars = chars_of(v.as_str());
                let parts = split_chars(chars.as_slice(), '&');
                let mut params: Vec<Param> = Vec::new();
                let mut i: usize = 0;
                while i < parts.len()
                    invariant
                        i <= parts.len(),
                        params@.map_values(|p: Param| (p.name@, p.value@)) == seqs(parts@).take(i as int).map_values(|p: Seq<char>| param_parts(p)),
                    decreases parts.len() - i,
                {
                    let piece = string_of(parts[i].as_slice());
                    let p = Param::parse(piece.as_str());
                    let ghost before = params@;
                    params.push(p);
                    assert(seqs(parts@)[i as int] == parts@[i as int]@);
                    assert(params@.map_values(|p: Param| (p.name@, p.value@)) =~= before.map_values(|p: Param| (p.name@, p.value@)).push((p.name@, p.value@)));
                    i += 1;
                    assert(params@.map_values(|p: Param| (p.name@, p.value@)) =~= seqs(parts@).take(i as int).map_values(|p: Seq<char>| param_parts(p)));
                }
                assert(seqs(parts@).take(parts.len() as int) =~= seqs(parts@));
                params
            },
            Err(_) => {
                let r: Vec<Param> = Vec::new();
                assert(r@.map_values(|p: Param| (p.name@, p.value@)) =~= Seq::<(Seq<char>, Seq<char>)>::empty());
                r
            },
        };
        Some(params)
    }
}

} // verus!
