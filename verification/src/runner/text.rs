use vstd::prelude::*;
use vstd::utf8::{decode_utf8, valid_utf8};

use crate::fs::utf8_string;
use crate::http::header::{get_header_value, header_values, Header};
use crate::http::request::{first_of, form_params_of, sent_headers, url_of, Method, Param, Request};
use crate::http::response::matching_values;
use crate::http::response::{version_text, Response, Version};
use crate::text::{append_str, contains_seq, join, join_strings, lit, nat_decimal, push_char, str_contains, u64_to_string, views};

verus! {

/// The name of a method, in capitals.
pub open spec fn method_text(m: Method) -> Seq<char> {
    match m {
        Method::Get => "GET"@,
        Method::Head => "HEAD"@,
        Method::Post => "POST"@,
        Method::Put => "PUT"@,
        Method::Delete => "DELETE"@,
        Method::Connect => "CONNECT"@,
        Method::Options => "OPTIONS"@,
        Method::Trace => "TRACE"@,
        Method::Patch => "PATCH"@,
    }
}

impl Method {
    /// The name of the method, in capitals.
    pub fn to_text(&self) -> (s: String)
        ensures
            s@ == method_text(*self),
    {
        match self {
            Method::Get => lit("GET"),
            Method::Head => lit("HEAD"),
            Method::Post => lit("POST"),
            Method::Put => lit("PUT"),
            Method::Delete => lit("DELETE"),
            Method::Connect => lit("CONNECT"),
            Method::Options => lit("OPTIONS"),
            Method::Trace => lit("TRACE"),
            Method::Patch => lit("PATCH"),
        }
    }
}

impl Version {
    /// The number of the version: `1.0`, `1.1` or `2`.
    pub fn to_text(&self) -> (s: String)
        ensures
            s@ == version_text(*self),
    {
        self.to_string()
    }
}

/// A header as a line of text.
pub open spec fn header_line(h: Header) -> Seq<char> {
    h.name@ + seq![':', ' '] + h.value@ + seq!['\n']
}

impl Header {
    /// The header as a line: `name: value` and a newline.
    pub fn to_text(&self) -> (s: String)
        ensures
            s@ == header_line(*self),
    {
        let mut s = self.name.clone();
        push_char(&mut s, ':');
        push_char(&mut s, ' ');
        append_str(&mut s, self.value.as_str());
        push_char(&mut s, '\n');
        s
    }
}

/// A content type that is shown as text.
pub open spec fn text_content_type(ct: Seq<char>) -> bool {
    ||| contains_seq(ct, "application/json"@)
    ||| contains_seq(ct, "text/html"@)
    ||| contains_seq(ct, "charset=utf-8"@)
    ||| contains_seq(ct, "application/x-www-form-urlencoded"@)
}

/// Whether a body of this content type is shown as text.
pub fn is_text(content_type: &str) -> (b: bool)
    ensures
        b == text_content_type(content_type@),
{
    str_contains(content_type, "application/json")
        || str_contains(content_type, "text/html")
        || str_contains(content_type, "charset=utf-8")
        || str_contains(content_type, "application/x-www-form-urlencoded")
}

/// At most `len` characters of `s` from the character at `start`.
pub open spec fn substring_of(s: Seq<char>, start: int, len: int) -> Seq<char> {
    let a = if start <= s.len() { start } else { s.len() as int };
    let b = if len <= s.len() - a { a + len } else { s.len() as int };
    s.subrange(a, b)
}

/// At most `len` characters of `s` from the character at `start`.
pub fn substring(s: &str, start: usize, len: usize) -> (r: &str)
    ensures
        r@ == substring_of(s@, start as int, len as int),
{
    let n = s.unicode_len();
    let a = if start <= n { start } else { n };
    let b = if len <= n - a { a + len } else { n };
    s.substring_char(a, b)
}

/// The bytes as a list of decimal numbers: `[1, 2, 3]`.
pub open spec fn bytes_debug(bytes: Seq<u8>) -> Seq<char> {
    seq!['['] + join(bytes.map_values(|b: u8| nat_decimal(b as nat)), seq![',', ' ']) + seq![']']
}

/// The bytes as a list of decimal numbers.
pub fn bytes_text(bytes: &Vec<u8>) -> (s: String)
    ensures
        s@ == bytes_debug(bytes@),
{
    let mut parts: Vec<String> = Vec::new();
    let mut i: usize = 0;
    while i < bytes.len()
        invariant
            i <= bytes.len(),
            views(parts@) == bytes@.take(i as int).map_values(|b: u8| nat_decimal(b as nat)),
        decreases bytes.len() - i,
    {
        let t = u64_to_string(bytes[i] as u64);
        let ghost before = parts@;
        parts.push(t);
        assert(views(parts@) =~= views(before).push(t@));
        assert(bytes@.take(i + 1) == bytes@.take(i as int).push(bytes@[i as int]));
        i += 1;
        assert(views(parts@) =~= bytes@.take(i as int).map_values(|b: u8| nat_decimal(b as nat)));
    }
    assert(bytes@.take(bytes.len() as int) =~= bytes@);
    let mut s = lit("[");
    let j = join_strings(&parts, ", ");
    append_str(&mut s, j.as_str());
    push_char(&mut s, ']');
    proof {
        reveal_strlit("[");
        reveal_strlit(", ");
        assert("["@ =~= seq!['[']);
        assert(", "@ =~= seq![',', ' ']);
    }
    assert(s@ =~= bytes_debug(bytes@));
    s
}

/// How a body is shown: as text when its content type is textual and it is UTF-8,
/// nothing when it is empty and has no content type, else as a list of bytes.
pub open spec fn body_view(bytes: Seq<u8>, content_type: Option<Seq<char>>) -> Seq<char> {
    match content_type {
        Some(ct) => if text_content_type(ct) && valid_utf8(bytes) {
            decode_utf8(bytes)
        } else {
            bytes_debug(bytes)
        },
        None => if bytes.len() == 0 { Seq::empty() } else { bytes_debug(bytes) },
    }
}

/// How a body is shown.
pub fn body_text(bytes: Vec<u8>, content_type: Option<String>) -> (s: String)
    ensures
        s@ == body_view(bytes@, match content_type { Some(c) => Some(c@), None => None }),
{
    match content_type {
        Some(content_type) => if is_text(content_type.as_str()) {
            let shown = bytes_text(&bytes);
            match utf8_string(bytes) {
                Ok(v) => v,
                Err(_) => shown,
            }
        } else {
            bytes_text(&bytes)
        },
        None => if bytes.len() == 0 {
            String::new()
        } else {
            bytes_text(&bytes)
        },
    }
}

/// The headers as lines.
pub open spec fn header_lines(hs: Seq<Header>) -> Seq<char>
    decreases hs.len(),
{
    if hs.len() == 0 {
        Seq::empty()
    } else {
        header_lines(hs.drop_last()) + header_line(hs.last())
    }
}

/// The first value of the exactly named `content-type` header.
pub open spec fn exact_content_type(hs: Seq<Header>) -> Option<Seq<char>> {
    let v = header_values(hs, "content-type"@);
    if v.len() > 0 { Some(v[0]) } else { None }
}

/// A response as text: the status line, the header lines, and at most `limit` characters
/// of the body when there is one.
pub open spec fn response_text(r: Response, limit: int) -> Seq<char> {
    "HTTP/"@ + version_text(r.version) + seq![' '] + nat_decimal(r.status as nat) + seq!['\n']
        + header_lines(r.headers@)
        + if r.body@.len() == 0 {
            Seq::empty()
        } else {
            substring_of(body_view(r.body@, exact_content_type(r.headers@)), 0, limit)
        }
}

/// Copies of the headers.
fn copy_headers(hs: &Vec<Header>) -> (r: Vec<Header>)
    ensures
        r@.len() == hs@.len(),
        forall|i: int| 0 <= i < hs@.len() ==> (#[trigger] r@[i]).name@ == hs@[i].name@ && r@[i].value@ == hs@[i].value@,
{
    let mut r: Vec<Header> = Vec::new();
    let mut i: usize = 0;
    while i < hs.len()
        invariant
            i <= hs.len(),
            r@.len() == i,
            forall|k: int| 0 <= k < i ==> (#[trigger] r@[k]).name@ == hs@[k].name@ && r@[k].value@ == hs@[k].value@,
        decreases hs.len() - i,
    {
        r.push(Header { name: hs[i].name.clone(), value: hs[i].value.clone() });
        i += 1;
    }
    r
}

impl Response {
    /// The response as text, with at most `limit_body` characters of body.
    pub fn to_text(&self, limit_body: usize) -> (s: String)
        ensures
            s@ == response_text(*self, limit_body as int),
    {
        let mut s = lit("HTTP/");
        let v = self.version.to_text();
        append_str(&mut s, v.as_str());
        push_char(&mut s, ' ');
        let st = u64_to_string(self.status as u64);
        append_str(&mut s, st.as_str());
        push_char(&mut s, '\n');
        let ghost hs = self.headers@;
        let ghost start = s@;
        let mut i: usize = 0;
        while i < self.headers.len()
            invariant
                i <= self.headers.len(),
                hs == self.headers@,
                s@ == start + header_lines(hs.take(i as int)),
            decreases self.headers.len() - i,
        {
            assert(hs.take(i + 1).drop_last() =~= hs.take(i as int));
            let line = self.headers[i].to_text();
            append_str(&mut s, line.as_str());
            i += 1;
        }
        assert(hs.take(self.headers.len() as int) =~= hs);
        if self.body.len() > 0 {
            let headers = copy_headers(&self.headers);
            assert(header_values(headers@, "content-type"@) == header_values(hs, "content-type"@)) by {
                lemma_header_values_same(headers@, hs, "content-type"@);
            }
            let ct = get_header_value(headers, "content-type");
            let body = body_text(self.body.clone(), ct);
            let shown = substring(body.as_str(), 0, limit_body);
            append_str(&mut s, shown);
        }
        assert(s@ =~= response_text(*self, limit_body as int));
        s
    }
}

/// Headers with the same names and values have the same values for a name.
proof fn lemma_header_values_same(a: Seq<Header>, b: Seq<Header>, name: Seq<char>)
    requires
        a.len() == b.len(),
        forall|i: int| 0 <= i < a.len() ==> (#[trigger] a[i]).name@ == b[i].name@ && a[i].value@ == b[i].value@,
    ensures
        header_values(a, name) == header_values(b, name),
    decreases a.len(),
{
    if a.len() > 0 {
        lemma_header_values_same(a.drop_last(), b.drop_last(), name);
        assert(a.last() == a[a.len() - 1]);
        assert(b.last() == b[b.len() - 1]);
    }
}

/// The form parameters as lines: `name=value`, each after a newline.
pub open spec fn param_lines(ps: Seq<(Seq<char>, Seq<char>)>) -> Seq<char>
    decreases ps.len(),
{
    if ps.len() == 0 {
        Seq::empty()
    } else {
        param_lines(ps.drop_last()) + seq!['\n'] + ps.last().0 + seq!['='] + ps.last().1
    }
}

/// The header lines of name and value pairs.
pub open spec fn pair_lines(hs: Seq<(Seq<char>, Seq<char>)>) -> Seq<char>
    decreases hs.len(),
{
    if hs.len() == 0 {
        Seq::empty()
    } else {
        pair_lines(hs.drop_last()) + hs.last().0 + seq![':', ' '] + hs.last().1 + seq!['\n']
    }
}

/// A request as text: the request line, the header lines sent, an empty line, then the
/// form parameters or the body.
pub open spec fn request_text(r: Request) -> Seq<char> {
    method_text(r.method) + seq![' '] + url_of(r) + seq!['\n']
        + pair_lines(sent_headers(r)) + seq!['\n']
        + (match form_params_of(r) {
            None => body_view(r.body@, first_of(matching_values(r.headers@, "Content-Type"@, true))),
            Some(ps) => "[Form Params]"@ + param_lines(ps),
        })
        + seq!['\n']
}

impl Request {
    /// The request as text.
    #[verifier::spinoff_prover]
    #[verifier::rlimit(30)]
    pub fn to_text(&self) -> (s: String)
        ensures
            s@ == request_text(*self),
    {
        let mut s = self.method.to_text();
        push_char(&mut s, ' ');
        let u = self.url_text();
        append_str(&mut s, u.as_str());
        push_char(&mut s, '\n');
        let headers = self.headers_to_send();
        let ghost hv = headers@.map_values(|h: Header| (h.name@, h.value@));
        let ghost start = s@;
        let mut i: usize = 0;
        while i < headers.len()
            invariant
                i <= headers.len(),
                hv == headers@.map_values(|h: Header| (h.name@, h.value@)),
                s@ == start + pair_lines(hv.take(i as int)),
            decreases headers.len() - i,
        {
            assert(hv.take(i + 1).drop_last() =~= hv.take(i as int));
            let line = headers[i].to_text();
            append_str(&mut s, line.as_str());
            i += 1;
            assert(s@ =~= start + pair_lines(hv.take(i as int)));
        }
        assert(hv.take(headers.len() as int) =~= hv);
        push_char(&mut s, '\n');
        let ghost p = s@;
        match self.form_parameters() {
            None => {
                let ct = self.get_header("Content-Type", true);
                let b = body_text(self.body.clone(), ct);
                append_str(&mut s, b.as_str());
            },
            Some(params) => {
                append_str(&mut s, "[Form Params]");
                let ghost pv = params@.map_values(|p: Param| (p.name@, p.value@));
                let ghost st = s@;
                let mut j: usize = 0;
                while j < params.len()
                    invariant
                        j <= params.len(),
                        pv == params@.map_values(|p: Param| (p.name@, p.value@)),
                        s@ == st + param_lines(pv.take(j as int)),
                    decreases params.len() - j,
                {
                    assert(pv.take(j + 1).drop_last() =~= pv.take(j as int));
                    push_char(&mut s, '\n');
                    append_str(&mut s, params[j].name.as_str());
                    push_char(&mut s, '=');
                    append_str(&mut s, params[j].value.as_str());
                    j += 1;
                    assert(s@ =~= st + param_lines(pv.take(j as int)));
                }
                assert(pv.take(params.len() as int) =~= pv);
            },
        }
        push_char(&mut s, '\n');
        assert(s@ =~= request_text(*self));
        s
    }
}

} // verus!
