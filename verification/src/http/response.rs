use vstd::prelude::*;

use crate::http::cookie::{parse_cookie_value, parsed_set_cookie, response_cookie_views, ResponseCookie, ResponseCookieView};
use crate::http::header::Header;
use crate::fs::utf8_string;
use crate::runner::results::RunnerError;
use crate::text::{char_from_u32, char_of, contains_seq, lit, lowercase, push_char, str_contains, str_eq, to_lowercase};
use vstd::utf8::{decode_utf8, valid_utf8};

verus! {

/// An HTTP response.
#[derive(Clone, Debug, PartialEq, Eq)]
pub struct Response {
    pub version: Version,
    pub status: u16,
    pub headers: Vec<Header>,
    pub body: Vec<u8>,
}

/// The HTTP version of a response.
#[derive(Clone, Copy, Debug, PartialEq, Eq)]
pub enum Version {
    Http10,
    Http11,
    Http2,
}

/// The character encoding of a body.
#[derive(Clone, Copy, Debug, PartialEq, Eq)]
pub enum Encoding {
    Utf8,
    Latin1,
}

/// The number of a version: `1.0`, `1.1` or `2`.
pub open spec fn version_text(v: Version) -> Seq<char> {
    match v {
        Version::Http10 => seq!['1', '.', '0'],
        Version::Http11 => seq!['1', '.', '1'],
        Version::Http2 => seq!['2'],
    }
}

impl Version {
    /// The number of the version.
    pub fn to_string(&self) -> (s: String)
        ensures
            s@ == version_text(*self),
    {
        let s = match self {
            Version::Http10 => lit("1.0"),
            Version::Http11 => lit("1.1"),
            Version::Http2 => lit("2"),
        };
        proof {
            reveal_strlit("1.0");
            reveal_strlit("1.1");
            reveal_strlit("2");
        }
        s
    }
}

/// A header name matches `name`: exactly, or, when the match is not case sensitive,
/// once both are lowercased.
pub open spec fn name_matches(h: Seq<char>, name: Seq<char>, case_sensitive: bool) -> bool {
    h == name || (!case_sensitive && lowercase(h) == lowercase(name))
}

/// The values of the headers whose name matches, in order.
pub open spec fn matching_values(headers: Seq<Header>, name: Seq<char>, case_sensitive: bool) -> Seq<Seq<char>>
    decreases headers.len(),
{
    if headers.len() == 0 {
        Seq::empty()
    } else {
        let r = matching_values(headers.drop_last(), name, case_sensitive);
        if name_matches(headers.last().name@, name, case_sensitive) {
            r.push(headers.last().value@)
        } else {
            r
        }
    }
}

/// The values of the `Set-Cookie` headers (whatever the case of the name), in order.
pub open spec fn set_cookie_values(headers: Seq<Header>) -> Seq<Seq<char>>
    decreases headers.len(),
{
    if headers.len() == 0 {
        Seq::empty()
    } else {
        let r = set_cookie_values(headers.drop_last());
        if lowercase(headers.last().name@) == "set-cookie"@ {
            r.push(headers.last().value@)
        } else {
            r
        }
    }
}

/// Every value parses as a cookie.
pub open spec fn all_parse(values: Seq<Seq<char>>) -> bool {
    forall|i: int| 0 <= i < values.len() ==> (#[trigger] parsed_set_cookie(values[i])) is Some
}

/// The cookies parsed from the values.
pub open spec fn parsed_cookies(values: Seq<Seq<char>>) -> Seq<ResponseCookieView> {
    values.map_values(|v: Seq<char>| parsed_set_cookie(v)->0)
}

/// The first cookie named `name`.
pub open spec fn first_named(cookies: Seq<ResponseCookieView>, name: Seq<char>) -> Option<ResponseCookieView>
    decreases cookies.len(),
{
    if cookies.len() == 0 {
        None
    } else if cookies[0].name == name {
        Some(cookies[0])
    } else {
        first_named(cookies.drop_first(), name)
    }
}

/// The view of an optional string.
pub open spec fn opt_string(o: Option<String>) -> Option<Seq<char>> {
    match o {
        Some(s) => Some(s@),
        None => None,
    }
}

/// The first value of the exactly named `content-type` header.
pub open spec fn content_type_of(headers: Seq<Header>) -> Option<Seq<char>> {
    let v = matching_values(headers, "content-type"@, true);
    if v.len() > 0 { Some(v[0]) } else { None }
}

/// The content type holds `pattern`.
pub open spec fn content_type_has(headers: Seq<Header>, pattern: Seq<char>) -> bool {
    match content_type_of(headers) {
        Some(v) => contains_seq(v, pattern),
        None => false,
    }
}

impl Response {
    /// The values of the headers named `name`, in order.
    pub fn get_header(&self, name: &str, case_sensitive: bool) -> (values: Vec<String>)
        ensures
            values@.map_values(|v: String| v@) == matching_values(self.headers@, name@, case_sensitive),
    {
        let mut values: Vec<String> = Vec::new();
        let mut i: usize = 0;
        let ghost hs = self.headers@;
        while i < self.headers.len()
            invariant
                i <= self.headers.len(),
                hs == self.headers@,
                values@.map_values(|v: String| v@) == matching_values(hs.take(i as int), name@, case_sensitive),
            decreases self.headers.len() - i,
        {
            assert(hs.take(i + 1).drop_last() =~= hs.take(i as int));
            let header = &self.headers[i];
            let mut m = str_eq(header.name.as_str(), name);
            if !m && !case_sensitive {
                let a = to_lowercase(header.name.as_str());
                let b = to_lowercase(name);
                m = str_eq(a.as_str(), b.as_str());
            }
            if m {
                values.push(header.value.clone());
            }
            i += 1;
            assert(values@.map_values(|v: String| v@) =~= matching_values(hs.take(i as int), name@, case_sensitive));
        }
        assert(hs.take(self.headers.len() as int) =~= hs);
        values
    }

    /// Whether every `Set-Cookie` header value of the response parses as a cookie.
    pub fn set_cookies_parse(&self) -> (b: bool)
        ensures
            b == all_parse(set_cookie_values(self.headers@)),
    {
        let ghost hs = self.headers@;
        let mut i: usize = 0;
        while i < self.headers.len()
            invariant
                i <= self.headers.len(),
                hs == self.headers@,
                all_parse(set_cookie_values(hs.take(i as int))),
            decreases self.headers.len() - i,
        {
            proof {
                lemma_set_cookie_values_step(hs, i as int);
                lemma_set_cookie_values_prefix(hs, i + 1);
            }
            let header = &self.headers[i];
            let lower = to_lowercase(header.name.as_str());
            let ghost v = set_cookie_values(hs.take(i + 1));
            let ghost w = set_cookie_values(hs.take(i as int));
            if str_eq(lower.as_str(), "set-cookie") {
                assert(lower@ == "set-cookie"@);
                assert(lowercase(hs[i as int].name@) == "set-cookie"@);
                let c = parse_cookie_value(header.value.as_str());
                if c.is_none() {
                    assert(v[v.len() - 1] == header.value@);
                    assert(set_cookie_values(hs)[v.len() - 1] == header.value@);
                    return false;
                }
                assert(parsed_set_cookie(header.value@) is Some);
                assert forall|k: int| 0 <= k < v.len() implies (#[trigger] parsed_set_cookie(v[k])) is Some by {
                    if k < w.len() {
                        assert(v[k] == w[k]);
                    }
                }
            } else {
                assert(lower@ != "set-cookie"@);
                assert(lowercase(hs[i as int].name@) != "set-cookie"@);
                assert(v == w);
            }
            i += 1;
        }
        assert(hs.take(self.headers.len() as int) =~= hs);
        true
    }

    /// The cookies set by the response, in header order.
    pub fn cookies(&self) -> (cookies: Vec<ResponseCookie>)
        requires
            all_parse(set_cookie_values(self.headers@)),
        ensures
            response_cookie_views(cookies@) == parsed_cookies(set_cookie_values(self.headers@)),
    {
        let mut cookies: Vec<ResponseCookie> = Vec::new();
        let ghost hs = self.headers@;
        let mut i: usize = 0;
        while i < self.headers.len()
            invariant
                i <= self.headers.len(),
                hs == self.headers@,
                all_parse(set_cookie_values(hs)),
                response_cookie_views(cookies@) == parsed_cookies(set_cookie_values(hs.take(i as int))),
            decreases self.headers.len() - i,
        {
            proof {
                lemma_set_cookie_values_step(hs, i as int);
                lemma_set_cookie_values_prefix(hs, i + 1);
            }
            let header = &self.headers[i];
            let lower = to_lowercase(header.name.as_str());
            if str_eq(lower.as_str(), "set-cookie") {
                proof {
                    assert(lower@ == "set-cookie"@);
                    assert(lowercase(hs[i as int].name@) == "set-cookie"@);
                    let v = set_cookie_values(hs.take(i + 1));
                    assert(v[v.len() - 1] == header.value@);
                    assert(set_cookie_values(hs)[v.len() - 1] == header.value@);
                    assert(parsed_set_cookie(v[v.len() - 1]) is Some);
                }
                assert(lower@ == "set-cookie"@);
                match parse_cookie_value(header.value.as_str()) {
                    Some(c) => {
                        assert(c@ == parsed_set_cookie(header.value@)->0);
                        let ghost before = cookies@;
                        cookies.push(c);
                        assert(response_cookie_views(cookies@) =~= response_cookie_views(before).push(c@));
                        let ghost w = set_cookie_values(hs.take(i as int));
                        assert(set_cookie_values(hs.take(i + 1)) == w.push(header.value@));
                        assert(parsed_cookies(w.push(header.value@)) =~= parsed_cookies(w).push(c@));
                    },
                    None => {
                        assert(false);
                    },
                }
                assert(response_cookie_views(cookies@) =~= parsed_cookies(set_cookie_values(hs.take(i + 1))));
            } else {
                assert(lower@ != "set-cookie"@);
                assert(lowercase(hs[i as int].name@) != "set-cookie"@);
                assert(response_cookie_views(cookies@) =~= parsed_cookies(set_cookie_values(hs.take(i + 1))));
            }
            proof {
                reveal_strlit("set-cookie");
            }
            i += 1;
            assert(response_cookie_views(cookies@) =~= parsed_cookies(set_cookie_values(hs.take(i as int))));
        }
        assert(hs.take(self.headers.len() as int) =~= hs);
        cookies
    }

    /// The cookies set by the response, or `None` when a `Set-Cookie` value does not parse.
    pub fn checked_cookies(&self) -> (r: Option<Vec<ResponseCookie>>)
        ensures
            r is Some <==> all_parse(set_cookie_values(self.headers@)),
            r matches Some(c) ==> response_cookie_views(c@) == parsed_cookies(set_cookie_values(self.headers@)),
    {
        if self.set_cookies_parse() {
            Some(self.cookies())
        } else {
            None
        }
    }

    /// The first cookie named `name` set by the response.
    pub fn get_cookie(&self, name: &str) -> (r: Option<ResponseCookie>)
        requires
            all_parse(set_cookie_values(self.headers@)),
        ensures
            match r {
                Some(c) => first_named(parsed_cookies(set_cookie_values(self.headers@)), name@) == Some(c@),
                None => first_named(parsed_cookies(set_cookie_values(self.headers@)), name@) is None,
            },
    {
        let mut cookies = self.cookies();
        let ghost all = response_cookie_views(cookies@);
        let mut i: usize = 0;
        assert(all.skip(0) =~= all);
        while i < cookies.len()
            invariant
                i <= cookies.len(),
                all == response_cookie_views(cookies@),
                all == parsed_cookies(set_cookie_values(self.headers@)),
                first_named(all, name@) == first_named(all.skip(i as int), name@),
            decreases cookies.len() - i,
        {
            assert(all.skip(i as int)[0] == cookies@[i as int]@);
            if str_eq(cookies[i].name.as_str(), name) {
                assert(all.skip(i as int)[0] == all[i as int]);
                let c = cookies.remove(i);
                assert(c@ == all[i as int]);
                return Some(c);
            }
            assert(all.skip(i as int).drop_first() =~= all.skip(i + 1));
            i += 1;
        }
        assert(all.skip(i as int) =~= Seq::<ResponseCookieView>::empty());
        None
    }

    /// The first value of the `content-type` header.
    pub fn content_type(&self) -> (r: Option<String>)
        ensures
            opt_string(r) == content_type_of(self.headers@),
    {
        let values = self.get_header("content-type", true);
        if values.len() > 0 {
            assert(values@.map_values(|v: String| v@)[0] == values@[0]@);
            let v = values[0].clone();
            assert(v@ == values@[0]@);
            Some(v)
        } else {
            None
        }
    }

    /// Latin-1 when the content type says `charset=ISO-8859-1`, else UTF-8.
    pub fn encoding(&self) -> (e: Encoding)
        ensures
            e == (if content_type_has(self.headers@, "charset=ISO-8859-1"@) {
                Encoding::Latin1
            } else {
                Encoding::Utf8
            }),
    {
        if let Some(value) = self.content_type() {
            if str_contains(value.as_str(), "charset=ISO-8859-1") {
                return Encoding::Latin1;
            }
        }
        Encoding::Utf8
    }

    /// Whether the content type says `charset=utf-8`.
    pub fn has_utf8_body(&self) -> (b: bool)
        ensures
            b == content_type_has(self.headers@, "charset=utf-8"@),
    {
        match self.content_type() {
            Some(value) => str_contains(value.as_str(), "charset=utf-8"),
            None => false,
        }
    }

    /// Whether the content type mentions `html`.
    pub fn is_html(&self) -> (b: bool)
        ensures
            b == content_type_has(self.headers@, "html"@),
    {
        match self.content_type() {
            Some(value) => str_contains(value.as_str(), "html"),
            None => false,
        }
    }
}

/// One more header adds its value to the `Set-Cookie` values when it is named so.
proof fn lemma_set_cookie_values_step(hs: Seq<Header>, i: int)
    requires
        0 <= i < hs.len(),
    ensures
        set_cookie_values(hs.take(i + 1)) == (if lowercase(hs[i].name@) == "set-cookie"@ {
            set_cookie_values(hs.take(i)).push(hs[i].value@)
        } else {
            set_cookie_values(hs.take(i))
        }),
{
    assert(hs.take(i + 1).drop_last() =~= hs.take(i));
    assert(hs.take(i + 1).last() == hs[i]);
}

/// The `Set-Cookie` values of a prefix of the headers are a prefix of those of all headers.
proof fn lemma_set_cookie_values_prefix(hs: Seq<Header>, n: int)
    requires
        0 <= n <= hs.len(),
    ensures
        set_cookie_values(hs.take(n)).len() <= set_cookie_values(hs).len(),
        forall|k: int| 0 <= k < set_cookie_values(hs.take(n)).len()
            ==> #[trigger] set_cookie_values(hs.take(n))[k] == set_cookie_values(hs)[k],
    decreases hs.len() - n,
{
    if n < hs.len() {
        lemma_set_cookie_values_prefix(hs, n + 1);
        assert(hs.take(n + 1).drop_last() =~= hs.take(n));
        let a = set_cookie_values(hs.take(n));
        let b = set_cookie_values(hs.take(n + 1));
        assert forall|k: int| 0 <= k < a.len() implies #[trigger] a[k] == set_cookie_values(hs)[k] by {
            assert(a[k] == b[k]);
        }
    } else {
        assert(hs.take(n) =~= hs);
    }
}


/// The characters of ISO-8859-1 bytes: each byte is the code point of its value.
pub open spec fn latin1_text(b: Seq<u8>) -> Seq<char> {
    b.map_values(|x: u8| char_of(x as u32))
}

/// The body as text, in the encoding that the content type gives; nothing when the
/// body is not UTF-8 where UTF-8 is expected.
pub open spec fn body_text(r: Response) -> Option<Seq<char>> {
    if content_type_has(r.headers@, "charset=ISO-8859-1"@) {
        Some(latin1_text(r.body@))
    } else if valid_utf8(r.body@) {
        Some(decode_utf8(r.body@))
    } else {
        None
    }
}

/// The text of ISO-8859-1 bytes.
fn decode_latin1(bytes: &Vec<u8>) -> (s: String)
    ensures
        s@ == latin1_text(bytes@),
{
    let mut s = String::new();
    let mut i: usize = 0;
    while i < bytes.len()
        invariant
            i <= bytes.len(),
            s@ == latin1_text(bytes@.take(i as int)),
        decreases bytes.len() - i,
    {
        let c = char_from_u32(bytes[i] as u32);
        match c {
            Some(c) => push_char(&mut s, c),
            None => {},
        }
        assert(latin1_text(bytes@.take(i + 1)) =~= latin1_text(bytes@.take(i as int)).push(char_of(bytes@[i as int] as u32)));
        i += 1;
    }
    assert(bytes@.take(bytes.len() as int) =~= bytes@);
    s
}

impl Response {
    /// The body as text in the encoding of the response; a body that is not UTF-8 where
    /// UTF-8 is expected cannot be decoded.
    pub fn text(&self) -> (r: Result<String, RunnerError>)
        ensures
            match body_text(*self) {
                Some(t) => r matches Ok(s) && s@ == t,
                None => r matches Err(RunnerError::InvalidDecoding { charset }) && charset@ == "utf-8"@,
            },
    {
        match self.encoding() {
            Encoding::Latin1 => Ok(decode_latin1(&self.body)),
            Encoding::Utf8 => match utf8_string(self.body.clone()) {
                Ok(s) => Ok(s),
                Err(_) => {
                    let charset = lit("utf-8");
                    proof {
                        reveal_strlit("utf-8");
                    }
                    Err(RunnerError::InvalidDecoding { charset })
                },
            },
        }
    }
}

} // verus!
