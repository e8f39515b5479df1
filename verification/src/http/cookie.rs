use vstd::prelude::*;

use cookie::time::format_description;
use cookie::time::UtcOffset;

use crate::http::header::Header;
use crate::text::{
    append_str, chars_eq, chars_of, drop_leading_empty, i64_to_string, int_decimal,
    is_pieces_prefix, lit, pieces_prefix, push_char, reversed, seqs, split_chars, split_on,
    str_eq, string_of, trim_first_empty, no_char, lemma_split_plain, lemma_split_field,
    lemma_int_decimal_no_char,
};

verus! {

/// A cookie as a server sets it in a `Set-Cookie` header.
#[derive(Clone, Debug, PartialEq, Eq)]
pub struct ResponseCookie {
    pub name: String,
    pub value: String,
    pub max_age: Option<i64>,
    pub domain: Option<String>,
    pub path: Option<String>,
    pub secure: Option<bool>,
    pub http_only: Option<bool>,
    pub expires: Option<String>,
    pub same_site: Option<String>,
}

/// The error of parsing a `Set-Cookie` header value.
#[derive(Debug, PartialEq, Eq)]
pub struct ParseCookieError {}

/// A response cookie as plain values.
pub struct ResponseCookieView {
    pub name: Seq<char>,
    pub value: Seq<char>,
    pub max_age: Option<i64>,
    pub domain: Option<Seq<char>>,
    pub path: Option<Seq<char>>,
    pub secure: Option<bool>,
    pub http_only: Option<bool>,
    pub expires: Option<Seq<char>>,
    pub same_site: Option<Seq<char>>,
}

/// The view of an optional string.
pub open spec fn opt_view(o: Option<String>) -> Option<Seq<char>> {
    match o {
        Some(s) => Some(s@),
        None => None,
    }
}

impl View for ResponseCookie {
    type V = ResponseCookieView;

    open spec fn view(&self) -> ResponseCookieView {
        ResponseCookieView {
            name: self.name@,
            value: self.value@,
            max_age: self.max_age,
            domain: opt_view(self.domain),
            path: opt_view(self.path),
            secure: self.secure,
            http_only: self.http_only,
            expires: opt_view(self.expires),
            same_site: opt_view(self.same_site),
        }
    }
}

/// A cookie held by a cookie jar.
#[derive(Clone, Debug, PartialEq, Eq)]
pub struct Cookie {
    pub name: String,
    pub value: String,
    pub domain: String,
    pub path: String,
    pub subdomains: bool,
    pub secure: bool,
    /// The expiry date, in seconds since the Unix epoch.
    pub expires: Option<i64>,
}

/// A jar cookie as plain values.
pub struct CookieView {
    pub name: Seq<char>,
    pub value: Seq<char>,
    pub domain: Seq<char>,
    pub path: Seq<char>,
    pub subdomains: bool,
    pub secure: bool,
    pub expires: Option<i64>,
}

impl View for Cookie {
    type V = CookieView;

    open spec fn view(&self) -> CookieView {
        CookieView {
            name: self.name@,
            value: self.value@,
            domain: self.domain@,
            path: self.path@,
            subdomains: self.subdomains,
            secure: self.secure,
            expires: self.expires,
        }
    }
}

/// The views of a sequence of jar cookies.
pub open spec fn cookie_views(v: Seq<Cookie>) -> Seq<CookieView> {
    v.map_values(|c: Cookie| c@)
}

/// The views of a sequence of response cookies.
pub open spec fn response_cookie_views(v: Seq<ResponseCookie>) -> Seq<ResponseCookieView> {
    v.map_values(|c: ResponseCookie| c@)
}

/// The `Cookie` request header that sends one cookie.
pub open spec fn encoded_cookie_value(name: Seq<char>, value: Seq<char>) -> Seq<char> {
    name + seq!['='] + value + seq![';']
}

impl ResponseCookie {
    /// The `Cookie` header that sends the cookie `header_name=header_value`.
    pub fn encode_cookie(header_name: String, header_value: String) -> (h: Header)
        ensures
            h.name@ == seq!['C', 'o', 'o', 'k', 'i', 'e'],
            h.value@ == encoded_cookie_value(header_name@, header_value@),
    {
        let name = lit("Cookie");
        let mut value = header_name;
        push_char(&mut value, '=');
        append_str(&mut value, header_value.as_str());
        push_char(&mut value, ';');
        proof {
            reveal_strlit("Cookie");
        }
        assert(value@ =~= encoded_cookie_value(header_name@, header_value@));
        Header { name, value }
    }
}

// ---------------------------------------------------------------------------
// Domains and paths

/// The labels of a domain, from the top level down, without a leading empty label.
pub open spec fn domain_labels(d: Seq<char>) -> Seq<Seq<char>> {
    trim_first_empty(split_on(d, '.')).reverse()
}

/// A cookie set for `domain` may be sent to `subdomain`: `domain` is not empty and its
/// labels, read from the top level down, begin the labels of `subdomain`.
pub open spec fn subdomain_of(domain: Seq<char>, subdomain: Seq<char>) -> bool {
    domain.len() > 0 && pieces_prefix(domain_labels(domain), domain_labels(subdomain))
}

/// The segments of a cookie path, last first, without a leading or a trailing empty one.
pub open spec fn path_segments(p: Seq<char>) -> Seq<Seq<char>> {
    trim_first_empty(trim_first_empty(split_on(p, '/')).reverse())
}

/// The segments of a request path, last first, without a leading empty one.
pub open spec fn request_segments(p: Seq<char>) -> Seq<Seq<char>> {
    trim_first_empty(split_on(p, '/')).reverse()
}

/// A cookie set for `path` may be sent with `subpath`: `path` is not empty and its
/// segments, last first, begin the segments of `subpath`, last first.
pub open spec fn subpath_of(path: Seq<char>, subpath: Seq<char>) -> bool {
    path.len() > 0 && pieces_prefix(path_segments(path), request_segments(subpath))
}

/// The labels of a domain, from the top level down.
fn labels_of(s: &str, sep: char) -> (v: Vec<Vec<char>>)
    ensures
        seqs(v@) == trim_first_empty(split_on(s@, sep)).reverse(),
{
    let chars = chars_of(s);
    let mut parts = split_chars(chars.as_slice(), sep);
    drop_leading_empty(&mut parts);
    reversed(parts)
}

/// Whether a cookie of `domain` may be sent to `subdomain`.
pub fn is_subdomain(domain: String, subdomain: String) -> (r: bool)
    ensures
        r == subdomain_of(domain@, subdomain@),
{
    if domain.as_str().is_empty() {
        return false;
    }
    let a = labels_of(domain.as_str(), '.');
    let b = labels_of(subdomain.as_str(), '.');
    is_pieces_prefix(&a, &b)
}

/// Whether a cookie of `path` may be sent with `subpath`.
pub fn is_subpath(path: String, subpath: String) -> (r: bool)
    ensures
        r == subpath_of(path@, subpath@),
{
    if path.as_str().is_empty() {
        return false;
    }
    let mut a = labels_of(path.as_str(), '/');
    drop_leading_empty(&mut a);
    let b = labels_of(subpath.as_str(), '/');
    is_pieces_prefix(&a, &b)
}

/// A jar cookie may be sent with a request to `domain` and `path`.
pub open spec fn usable(c: CookieView, domain: Seq<char>, path: Seq<char>) -> bool {
    &&& subdomain_of(c.domain, domain)
    &&& (c.subdomains || domain == c.domain)
    &&& subpath_of(c.path, path)
}

impl Cookie {
    /// Whether the cookie may be sent with a request to `domain` and `path`.
    pub fn is_usable(&self, domain: String, path: String) -> (r: bool)
        ensures
            r == usable(self@, domain@, path@),
    {
        if !is_subdomain(self.domain.clone(), domain.clone()) {
            return false;
        }
        if !self.subdomains && !str_eq(domain.as_str(), self.domain.as_str()) {
            return false;
        }
        if !is_subpath(self.path.clone(), path) {
            return false;
        }
        true
    }
}

// ---------------------------------------------------------------------------
// The cookie jar

/// The cookie that a jar sends for one of its cookies.
pub open spec fn session_cookie(c: CookieView) -> ResponseCookieView {
    ResponseCookieView {
        name: c.name,
        value: c.value,
        max_age: None,
        domain: Some(c.domain),
        path: Some(c.path),
        secure: Some(c.secure),
        http_only: None,
        expires: None,
        same_site: None,
    }
}

/// The cookies sent with a request to `domain` and `path`, in jar order.
pub open spec fn usable_cookies(s: Seq<CookieView>, domain: Seq<char>, path: Seq<char>) -> Seq<ResponseCookieView>
    decreases s.len(),
{
    if s.len() == 0 {
        Seq::empty()
    } else {
        let r = usable_cookies(s.drop_last(), domain, path);
        if usable(s.last(), domain, path) {
            r.push(session_cookie(s.last()))
        } else {
            r
        }
    }
}

/// The cookies whose name is not `name`, in order.
pub open spec fn without_name(s: Seq<CookieView>, name: Seq<char>) -> Seq<CookieView>
    decreases s.len(),
{
    if s.len() == 0 {
        Seq::empty()
    } else {
        let r = without_name(s.drop_last(), name);
        if s.last().name == name {
            r
        } else {
            r.push(s.last())
        }
    }
}

/// The domain a response cookie is stored under.
pub open spec fn stored_domain(c: ResponseCookieView, default_domain: Seq<char>) -> Seq<char> {
    match c.domain {
        Some(d) => d,
        None => default_domain,
    }
}

/// The path a response cookie is stored under.
pub open spec fn stored_path(c: ResponseCookieView) -> Seq<char> {
    match c.path {
        Some(p) => p,
        None => seq!['/'],
    }
}

/// The jar cookie stored for a new response cookie.
pub open spec fn stored_cookie(c: ResponseCookieView, default_domain: Seq<char>) -> CookieView {
    CookieView {
        name: c.name,
        value: c.value,
        domain: stored_domain(c, default_domain),
        path: stored_path(c),
        subdomains: c.domain is Some,
        secure: match c.secure {
            Some(v) => v,
            None => false,
        },
        expires: None,
    }
}

/// The jar cookie `k` has this name and domain.
pub open spec fn same_cookie(k: CookieView, name: Seq<char>, domain: Seq<char>) -> bool {
    k.name == name && k.domain == domain
}

/// `i` is the first index of a cookie with this name and domain.
pub open spec fn first_same(s: Seq<CookieView>, name: Seq<char>, domain: Seq<char>, i: int) -> bool {
    &&& 0 <= i < s.len()
    &&& same_cookie(s[i], name, domain)
    &&& forall|j: int| 0 <= j < i ==> !same_cookie(#[trigger] s[j], name, domain)
}

/// The jar after receiving a response cookie: a zero max-age deletes every cookie of
/// that name; otherwise the first cookie with the same name and domain takes the new
/// value, or, if there is none, the cookie is added at the end.
pub open spec fn updated_jar(s: Seq<CookieView>, default_domain: Seq<char>, c: ResponseCookieView) -> Seq<CookieView> {
    if c.max_age == Some(0i64) {
        without_name(s, c.name)
    } else {
        let d = stored_domain(c, default_domain);
        if exists|i: int| first_same(s, c.name, d, i) {
            let i = choose|i: int| first_same(s, c.name, d, i);
            s.update(i, CookieView { value: c.value, ..s[i] })
        } else {
            s.push(stored_cookie(c, default_domain))
        }
    }
}

/// A list of cookies, kept in the order they were received.
#[derive(Clone, Debug, PartialEq)]
pub struct CookieJar {
    inner: Vec<Cookie>,
}

impl View for CookieJar {
    type V = Seq<CookieView>;

    closed spec fn view(&self) -> Seq<CookieView> {
        cookie_views(self.inner@)
    }
}

/// A copy of an optional string.
pub(crate) fn copy_opt(o: &Option<String>) -> (r: Option<String>)
    ensures
        opt_view(r) == opt_view(*o),
{
    match o {
        Some(x) => Some(x.clone()),
        None => None,
    }
}

/// A copy of a response cookie.
pub(crate) fn copy_response_cookie(c: &ResponseCookie) -> (r: ResponseCookie)
    ensures
        r@ == c@,
{
    ResponseCookie {
        name: c.name.clone(),
        value: c.value.clone(),
        max_age: c.max_age,
        domain: copy_opt(&c.domain),
        path: copy_opt(&c.path),
        secure: c.secure,
        http_only: c.http_only,
        expires: copy_opt(&c.expires),
        same_site: copy_opt(&c.same_site),
    }
}

/// A copy of a jar cookie.
fn copy_cookie(c: &Cookie) -> (r: Cookie)
    ensures
        r@ == c@,
{
    Cookie {
        name: c.name.clone(),
        value: c.value.clone(),
        domain: c.domain.clone(),
        path: c.path.clone(),
        subdomains: c.subdomains,
        secure: c.secure,
        expires: c.expires,
    }
}

impl CookieJar {
    /// A jar holding these cookies.
    pub fn init(cookies: Vec<Cookie>) -> (jar: CookieJar)
        ensures
            jar@ == cookie_views(cookies@),
    {
        CookieJar { inner: cookies }
    }

    /// The cookies of the jar.
    pub fn cookies(self) -> (cookies: Vec<Cookie>)
        ensures
            cookie_views(cookies@) == self@,
    {
        self.inner
    }

    /// The cookies to send with a request to `domain` and `path`.
    pub fn get_cookies(self, domain: String, path: String) -> (cookies: Vec<ResponseCookie>)
        ensures
            response_cookie_views(cookies@) == usable_cookies(self@, domain@, path@),
    {
        let mut r: Vec<ResponseCookie> = Vec::new();
        let mut i: usize = 0;
        let ghost s = self@;
        while i < self.inner.len()
            invariant
                i <= self.inner.len(),
                s == cookie_views(self.inner@),
                response_cookie_views(r@) == usable_cookies(s.take(i as int), domain@, path@),
            decreases self.inner.len() - i,
        {
            assert(s.take(i + 1).drop_last() =~= s.take(i as int));
            assert(s.take(i + 1).last() == self.inner@[i as int]@);
            let c = &self.inner[i];
            if c.is_usable(domain.clone(), path.clone()) {
                let rc = ResponseCookie {
                    name: c.name.clone(),
                    value: c.value.clone(),
                    max_age: None,
                    domain: Some(c.domain.clone()),
                    path: Some(c.path.clone()),
                    secure: Some(c.secure),
                    http_only: None,
                    expires: None,
                    same_site: None,
                };
                assert(rc@ == session_cookie(c@));
                r.push(rc);
            }
            i += 1;
            assert(response_cookie_views(r@) =~= usable_cookies(s.take(i as int), domain@, path@));
        }
        assert(s.take(self.inner.len() as int) =~= s);
        r
    }

    /// Stores a cookie received in a response from `default_domain`.
    pub fn update_cookies(&mut self, default_domain: String, _default_path: String, cookie: ResponseCookie)
        ensures
            final(self)@ == updated_jar(old(self)@, default_domain@, cookie@),
    {
        if cookie.max_age == Some(0i64) {
            self.remove_named(&cookie.name);
            return;
        }
        let domain = match &cookie.domain {
            None => default_domain,
            Some(d) => d.clone(),
        };
        let path = match &cookie.path {
            None => lit("/"),
            Some(p) => p.clone(),
        };
        proof {
            reveal_strlit("/");
        }
        assert(cookie@.max_age != Some(0i64));
        assert(domain@ == stored_domain(cookie@, default_domain@));
        assert(path@ == stored_path(cookie@));
        let ghost s = self@;
        let mut i: usize = 0;
        while i < self.inner.len()
            invariant
                i <= self.inner.len(),
                s == cookie_views(self.inner@),
                s == old(self)@,
                cookie@.max_age != Some(0i64),
                domain@ == stored_domain(cookie@, default_domain@),
                forall|j: int| 0 <= j < i ==> !same_cookie(#[trigger] s[j], cookie@.name, domain@),
            decreases self.inner.len() - i,
        {
            if str_eq(self.inner[i].name.as_str(), cookie.name.as_str())
                && str_eq(self.inner[i].domain.as_str(), domain.as_str()) {
                let mut c = self.inner.remove(i);
                c.value = cookie.value;
                self.inner.insert(i, c);
                proof {
                    assert(first_same(s, cookie@.name, domain@, i as int));
                    let k = choose|k: int| first_same(s, cookie@.name, domain@, k);
                    assert(k == i) by {
                        if k < i {
                            assert(!same_cookie(s[k], cookie@.name, domain@));
                        }
                        if k > i {
                            assert(!same_cookie(s[i as int], cookie@.name, domain@));
                        }
                    }
                    assert(cookie_views(self.inner@) =~= s.update(i as int, CookieView { value: cookie@.value, ..s[i as int] }));
                }
                return;
            }
            i += 1;
        }
        assert(!exists|k: int| first_same(s, cookie@.name, domain@, k));
        let secure = match cookie.secure {
            Some(v) => v,
            None => false,
        };
        let subdomains = cookie.domain.is_some();
        let c = Cookie {
            name: cookie.name,
            value: cookie.value,
            domain,
            path,
            subdomains,
            secure,
            expires: None,
        };
        assert(c@ == stored_cookie(cookie@, default_domain@));
        self.inner.push(c);
        assert(self@ =~= s.push(stored_cookie(cookie@, default_domain@)));
    }

    /// Removes every cookie named `name`.
    fn remove_named(&mut self, name: &String)
        ensures
            final(self)@ == without_name(old(self)@, name@),
    {
        let ghost s = self@;
        let mut kept: Vec<Cookie> = Vec::new();
        let mut i: usize = 0;
        while i < self.inner.len()
            invariant
                i <= self.inner.len(),
                s == cookie_views(self.inner@),
                cookie_views(kept@) == without_name(s.take(i as int), name@),
            decreases self.inner.len() - i,
        {
            assert(s.take(i + 1).drop_last() =~= s.take(i as int));
            assert(s.take(i + 1).last() == self.inner@[i as int]@);
            if !str_eq(self.inner[i].name.as_str(), name.as_str()) {
                let c = copy_cookie(&self.inner[i]);
                kept.push(c);
            }
            i += 1;
            assert(cookie_views(kept@) =~= without_name(s.take(i as int), name@));
        }
        assert(s.take(self.inner.len() as int) =~= s);
        self.inner = kept;
    }
}

// ---------------------------------------------------------------------------
// Netscape cookie lines

/// `TRUE` or `FALSE`.
pub open spec fn flag_word(b: bool) -> Seq<char> {
    if b { seq!['T', 'R', 'U', 'E'] } else { seq!['F', 'A', 'L', 'S', 'E'] }
}

/// The expiry field of a Netscape line: the timestamp, or `0` for a session cookie.
pub open spec fn expires_field(e: Option<i64>) -> Seq<char> {
    match e {
        Some(t) => int_decimal(t as int),
        None => seq!['0'],
    }
}

/// The Netscape line of a jar cookie: domain, subdomains flag, path, secure flag,
/// expiry, name and value, separated by tabs.
pub open spec fn netscape_line(c: CookieView) -> Seq<char> {
    c.domain + seq!['\t'] + flag_word(c.subdomains) + seq!['\t'] + c.path + seq!['\t']
        + flag_word(c.secure) + seq!['\t'] + expires_field(c.expires) + seq!['\t'] + c.name
        + seq!['\t'] + c.value
}

/// The jar cookie read from a Netscape line: the line must have seven tab-separated
/// fields; a flag is set when its field is `TRUE`; the expiry is not read.
pub open spec fn netscape_cookie(s: Seq<char>) -> Option<CookieView> {
    let t = split_on(s, '\t');
    if t.len() != 7 {
        None
    } else {
        Some(CookieView {
            name: t[5],
            value: t[6],
            domain: t[0],
            path: t[2],
            subdomains: t[1] == flag_word(true),
            secure: t[3] == flag_word(true),
            expires: None,
        })
    }
}

/// The view of an optional jar cookie.
pub open spec fn opt_cookie_view(o: Option<Cookie>) -> Option<CookieView> {
    match o {
        Some(c) => Some(c@),
        None => None,
    }
}

/// `TRUE` or `FALSE`.
fn flag_string(b: bool) -> (s: String)
    ensures
        s@ == flag_word(b),
{
    let s = if b { lit("TRUE") } else { lit("FALSE") };
    proof {
        reveal_strlit("TRUE");
        reveal_strlit("FALSE");
    }
    s
}

/// `name=value; domain=..; path=..`.
pub open spec fn cookie_text(c: CookieView) -> Seq<char> {
    c.name + seq!['='] + c.value + seq![';', ' ', 'd', 'o', 'm', 'a', 'i', 'n', '='] + c.domain
        + seq![';', ' ', 'p', 'a', 't', 'h', '='] + c.path
}

impl Cookie {
    /// The cookie as a line of a Netscape cookie file.
    pub fn to_netscape(&self) -> (s: String)
        ensures
            s@ == netscape_line(self@),
    {
        let mut s = self.domain.clone();
        push_char(&mut s, '\t');
        let w = flag_string(self.subdomains);
        append_str(&mut s, w.as_str());
        push_char(&mut s, '\t');
        append_str(&mut s, self.path.as_str());
        push_char(&mut s, '\t');
        let w = flag_string(self.secure);
        append_str(&mut s, w.as_str());
        push_char(&mut s, '\t');
        let e = match self.expires {
            Some(t) => i64_to_string(t),
            None => {
                let z = lit("0");
                proof {
                    reveal_strlit("0");
                }
                z
            },
        };
        append_str(&mut s, e.as_str());
        push_char(&mut s, '\t');
        append_str(&mut s, self.name.as_str());
        push_char(&mut s, '\t');
        append_str(&mut s, self.value.as_str());
        assert(s@ =~= netscape_line(self@));
        s
    }

    /// The cookie read from a line of a Netscape cookie file, if it has seven fields.
    pub fn from_netscape(s: &str) -> (r: Option<Cookie>)
        ensures
            opt_cookie_view(r) == netscape_cookie(s@),
    {
        let chars = chars_of(s);
        let tokens = split_chars(chars.as_slice(), '\t');
        if tokens.len() != 7 {
            return None;
        }
        let ghost t = split_on(s@, '\t');
        let flag: Vec<char> = vec!['T', 'R', 'U', 'E'];
        assert(flag@ =~= flag_word(true));
        let domain = string_of(tokens[0].as_slice());
        let subdomains = chars_eq(tokens[1].as_slice(), flag.as_slice());
        let path = string_of(tokens[2].as_slice());
        let secure = chars_eq(tokens[3].as_slice(), flag.as_slice());
        let name = string_of(tokens[5].as_slice());
        let value = string_of(tokens[6].as_slice());
        proof {
            assert(seqs(tokens@)[0] == t[0]);
            assert(seqs(tokens@)[1] == t[1]);
            assert(seqs(tokens@)[2] == t[2]);
            assert(seqs(tokens@)[3] == t[3]);
            assert(seqs(tokens@)[5] == t[5]);
            assert(seqs(tokens@)[6] == t[6]);
        }
        Some(Cookie { name, value, domain, path, subdomains, secure, expires: None })
    }

    /// The cookie as text: `name=value; domain=..; path=..`.
    pub fn to_string(&self) -> (s: String)
        ensures
            s@ == cookie_text(self@),
    {
        let mut s = self.name.clone();
        push_char(&mut s, '=');
        append_str(&mut s, self.value.as_str());
        append_str(&mut s, "; domain=");
        append_str(&mut s, self.domain.as_str());
        append_str(&mut s, "; path=");
        append_str(&mut s, self.path.as_str());
        proof {
            reveal_strlit("; domain=");
            reveal_strlit("; path=");
        }
        assert(s@ =~= cookie_text(self@));
        s
    }
}

// ---------------------------------------------------------------------------
// Response cookies as text

/// An optional attribute of a response cookie as text: `; label:value`, or nothing.
pub open spec fn attribute_text(label: Seq<char>, v: Option<Seq<char>>) -> Seq<char> {
    match v {
        Some(x) => seq![';', ' '] + label + seq![':'] + x,
        None => Seq::empty(),
    }
}

/// `name=value`, then the max-age, domain and path when they are set.
pub open spec fn response_cookie_text(c: ResponseCookieView) -> Seq<char> {
    c.name + seq!['='] + c.value
        + attribute_text(seq!['M', 'a', 'x', '-', 'A', 'g', 'e'], match c.max_age {
            Some(v) => Some(int_decimal(v as int)),
            None => None,
        })
        + attribute_text(seq!['D', 'o', 'm', 'a', 'i', 'n'], c.domain)
        + attribute_text(seq!['P', 'a', 't', 'h'], c.path)
}

/// Appends `; label:value` when the value is set.
fn push_attribute(s: &mut String, label: &str, v: &Option<String>)
    ensures
        final(s)@ == old(s)@ + attribute_text(label@, opt_view(*v)),
{
    match v {
        Some(x) => {
            append_str(s, "; ");
            append_str(s, label);
            push_char(s, ':');
            append_str(s, x.as_str());
            proof {
                reveal_strlit("; ");
            }
            assert(final(s)@ =~= old(s)@ + attribute_text(label@, opt_view(*v)));
        },
        None => {
            assert(final(s)@ =~= old(s)@ + attribute_text(label@, opt_view(*v)));
        },
    }
}

/// The view of an optional response cookie.
pub open spec fn opt_response_view(o: Option<ResponseCookie>) -> Option<ResponseCookieView> {
    match o {
        Some(c) => Some(c@),
        None => None,
    }
}

/// What `cookie::Cookie::parse` (cookie crate) makes of a `Set-Cookie` header value,
/// read field by field; `None` when the crate refuses the text.
pub uninterp spec fn parsed_set_cookie(s: Seq<char>) -> Option<ResponseCookieView>;

/// Parses a `Set-Cookie` header value with `cookie::Cookie::parse` and reads its name,
/// value, max-age (whole seconds), domain, path, secure and http-only flags, expiry
/// (in UTC, as `Sun, 06 Nov 1994 08:49:37 GMT`) and same-site policy. The contract only names the result.
#[verifier::external_body]
pub(crate) fn parse_cookie_value(s: &str) -> (r: Option<ResponseCookie>)
    ensures
        opt_response_view(r) == parsed_set_cookie(s@),
{
    let c = cookie::Cookie::parse(s).ok()?;
    let http_date = format_description::parse("[weekday repr:short], [day] [month repr:short] [year] [hour]:[minute]:[second] GMT").ok()?;
    Some(ResponseCookie {
        name: c.name().to_string(),
        value: c.value().to_string(),
        max_age: c.max_age().map(|d| d.whole_seconds()),
        domain: c.domain().map(str::to_string),
        path: c.path().map(str::to_string),
        secure: c.secure(),
        http_only: c.http_only(),
        expires: c.expires_datetime().and_then(|t| t.to_offset(UtcOffset::UTC).format(&http_date).ok()),
        same_site: c.same_site().map(|v| v.to_string()),
    })
}

impl ResponseCookie {
    /// Parses a `Set-Cookie` header value that the cookie crate accepts.
    pub fn from_str(s: &str) -> (r: Result<ResponseCookie, ParseCookieError>)
        requires
            parsed_set_cookie(s@) is Some,
        ensures
            r matches Ok(c) && parsed_set_cookie(s@) == Some(c@),
    {
        match parse_cookie_value(s) {
            Some(c) => Ok(c),
            None => Err(ParseCookieError {}),
        }
    }

    /// Parses a `Set-Cookie` header value: nothing when the cookie crate refuses it.
    pub fn checked_from_str(s: &str) -> (r: Option<ResponseCookie>)
        ensures
            r is Some <==> parsed_set_cookie(s@) is Some,
            r matches Some(c) ==> parsed_set_cookie(s@) == Some(c@),
    {
        if parse_cookie_value(s).is_some() {
            match Self::from_str(s) {
                Ok(c) => Some(c),
                Err(_) => None,
            }
        } else {
            None
        }
    }

    /// The cookie as text: `name=value`, then `; Max-Age:..`, `; Domain:..` and
    /// `; Path:..` when they are set.
    pub fn to_string(&self) -> (s: String)
        ensures
            s@ == response_cookie_text(self@),
    {
        let mut s = self.name.clone();
        push_char(&mut s, '=');
        append_str(&mut s, self.value.as_str());
        let age = match self.max_age {
            Some(v) => Some(i64_to_string(v)),
            None => None,
        };
        push_attribute(&mut s, "Max-Age", &age);
        push_attribute(&mut s, "Domain", &self.domain);
        push_attribute(&mut s, "Path", &self.path);
        proof {
            reveal_strlit("Max-Age");
            reveal_strlit("Domain");
            reveal_strlit("Path");
        }
        assert(s@ =~= response_cookie_text(self@));
        s
    }
}

// ---------------------------------------------------------------------------
// Laws of the cookie jar

/// After a cookie with a max-age other than zero is received, the jar holds a cookie
/// with its name and value, under the domain it is stored for.
pub proof fn law_update_stores(jar: Seq<CookieView>, default_domain: Seq<char>, c: ResponseCookieView)
    requires
        c.max_age != Some(0i64),
    ensures
        exists|i: int|
            0 <= i < updated_jar(jar, default_domain, c).len() && {
                let k = #[trigger] updated_jar(jar, default_domain, c)[i];
                k.name == c.name && k.value == c.value && k.domain == stored_domain(c, default_domain)
            },
{
    let d = stored_domain(c, default_domain);
    let u = updated_jar(jar, default_domain, c);
    if exists|i: int| first_same(jar, c.name, d, i) {
        let i = choose|i: int| first_same(jar, c.name, d, i);
        assert(u[i].name == c.name && u[i].value == c.value && u[i].domain == d);
    } else {
        let i = jar.len() as int;
        assert(u[i] == stored_cookie(c, default_domain));
    }
}

/// A cookie with a zero max-age deletes every cookie of its name, and keeps every other
/// cookie.
pub proof fn law_delete_by_name(jar: Seq<CookieView>, default_domain: Seq<char>, c: ResponseCookieView)
    requires
        c.max_age == Some(0i64),
    ensures
        forall|i: int|
            0 <= i < updated_jar(jar, default_domain, c).len()
                ==> #[trigger] updated_jar(jar, default_domain, c)[i].name != c.name,
        forall|k: CookieView| #[trigger] jar.contains(k) && k.name != c.name
            ==> updated_jar(jar, default_domain, c).contains(k),
{
    lemma_without_name(jar, c.name);
}

/// Every cookie left by `without_name` has another name, and every cookie of another
/// name is left.
pub proof fn lemma_without_name(s: Seq<CookieView>, name: Seq<char>)
    ensures
        forall|i: int| 0 <= i < without_name(s, name).len() ==> #[trigger] without_name(s, name)[i].name != name,
        forall|k: CookieView| #[trigger] s.contains(k) && k.name != name ==> without_name(s, name).contains(k),
    decreases s.len(),
{
    if s.len() > 0 {
        let t = s.drop_last();
        lemma_without_name(t, name);
        let r = without_name(t, name);
        assert forall|k: CookieView| #[trigger] s.contains(k) && k.name != name implies without_name(s, name).contains(k) by {
            let j = choose|j: int| 0 <= j < s.len() && s[j] == k;
            if j < s.len() - 1 {
                assert(t[j] == k);
                assert(t.contains(k));
                let m = choose|m: int| 0 <= m < r.len() && r[m] == k;
                if s.last().name != name {
                    assert(r.push(s.last())[m] == k);
                }
            } else {
                assert(r.push(s.last())[r.len() as int] == k);
            }
        }
    }
}

/// No two cookies of a jar share a name and a domain.
pub open spec fn unique_keys(s: Seq<CookieView>) -> bool {
    forall|i: int, j: int| 0 <= i < j < s.len() ==> !same_cookie(#[trigger] s[i], s[j].name, #[trigger] s[j].domain)
}

/// Each cookie left by `without_name` is a cookie of the jar, the later ones from later
/// places.
proof fn lemma_without_name_from(s: Seq<CookieView>, name: Seq<char>)
    ensures
        forall|i: int| 0 <= i < without_name(s, name).len() ==> exists|j: int| 0 <= j < s.len() && #[trigger] without_name(s, name)[i] == s[j],
    decreases s.len(),
{
    if s.len() > 0 {
        let t = s.drop_last();
        lemma_without_name_from(t, name);
        let r = without_name(t, name);
        assert forall|i: int| 0 <= i < without_name(s, name).len() implies exists|j: int| 0 <= j < s.len() && #[trigger] without_name(s, name)[i] == s[j] by {
            if i < r.len() {
                let j = choose|j: int| 0 <= j < t.len() && r[i] == t[j];
                assert(without_name(s, name)[i] == r[i]);
                assert(s[j] == t[j]);
            } else {
                assert(without_name(s, name)[i] == s[s.len() - 1]);
            }
        }
    }
}

/// Dropping the cookies of a name keeps the cookies of a jar apart.
proof fn lemma_without_name_unique(s: Seq<CookieView>, name: Seq<char>)
    requires
        unique_keys(s),
    ensures
        unique_keys(without_name(s, name)),
    decreases s.len(),
{
    if s.len() > 0 {
        let t = s.drop_last();
        assert(unique_keys(t)) by {
            assert forall|i: int, j: int| 0 <= i < j < t.len() implies !same_cookie(#[trigger] t[i], t[j].name, #[trigger] t[j].domain) by {
                assert(t[i] == s[i] && t[j] == s[j]);
            }
        }
        lemma_without_name_unique(t, name);
        lemma_without_name_from(t, name);
        let r = without_name(t, name);
        if s.last().name != name {
            let u = r.push(s.last());
            assert forall|i: int, j: int| 0 <= i < j < u.len() implies !same_cookie(#[trigger] u[i], u[j].name, #[trigger] u[j].domain) by {
                if j == r.len() {
                    let k = choose|k: int| 0 <= k < t.len() && r[i] == t[k];
                    assert(u[i] == s[k]);
                    assert(u[j] == s[s.len() - 1]);
                } else {
                    assert(u[i] == r[i] && u[j] == r[j]);
                }
            }
        }
    }
}

/// When some cookie has this name and domain, a first one has.
proof fn lemma_first_same_exists(s: Seq<CookieView>, name: Seq<char>, domain: Seq<char>, j: int)
    requires
        0 <= j < s.len(),
        same_cookie(s[j], name, domain),
    ensures
        exists|i: int| first_same(s, name, domain, i),
    decreases j,
{
    if exists|k: int| 0 <= k < j && same_cookie(#[trigger] s[k], name, domain) {
        let k = choose|k: int| 0 <= k < j && same_cookie(#[trigger] s[k], name, domain);
        lemma_first_same_exists(s, name, domain, k);
    } else {
        assert(first_same(s, name, domain, j));
    }
}

/// Receiving a cookie keeps the cookies of a jar apart: when no two share a name and a
/// domain before, none do after.
pub proof fn law_update_keeps_unique(jar: Seq<CookieView>, default_domain: Seq<char>, c: ResponseCookieView)
    requires
        unique_keys(jar),
    ensures
        unique_keys(updated_jar(jar, default_domain, c)),
{
    if c.max_age == Some(0i64) {
        lemma_without_name_unique(jar, c.name);
    } else {
        let d = stored_domain(c, default_domain);
        let u = updated_jar(jar, default_domain, c);
        if exists|i: int| first_same(jar, c.name, d, i) {
            let i = choose|i: int| first_same(jar, c.name, d, i);
            assert forall|a: int, b: int| 0 <= a < b < u.len() implies !same_cookie(#[trigger] u[a], u[b].name, #[trigger] u[b].domain) by {
                assert(u[a].name == jar[a].name && u[a].domain == jar[a].domain);
                assert(u[b].name == jar[b].name && u[b].domain == jar[b].domain);
            }
        } else {
            assert forall|a: int, b: int| 0 <= a < b < u.len() implies !same_cookie(#[trigger] u[a], u[b].name, #[trigger] u[b].domain) by {
                if b == jar.len() {
                    if same_cookie(jar[a], c.name, d) {
                        lemma_first_same_exists(jar, c.name, d, a);
                    }
                    assert(u[a] == jar[a]);
                } else {
                    assert(u[a] == jar[a] && u[b] == jar[b]);
                }
            }
        }
    }
}

/// Every cookie of the jar that may be sent with a request is sent with it.
pub proof fn law_usable_cookie_sent(s: Seq<CookieView>, domain: Seq<char>, path: Seq<char>, i: int)
    requires
        0 <= i < s.len(),
        usable(s[i], domain, path),
    ensures
        usable_cookies(s, domain, path).contains(session_cookie(s[i])),
    decreases s.len(),
{
    let t = s.drop_last();
    let r = usable_cookies(t, domain, path);
    if i < s.len() - 1 {
        assert(t[i] == s[i]);
        law_usable_cookie_sent(t, domain, path, i);
        let m = choose|m: int| 0 <= m < r.len() && r[m] == session_cookie(s[i]);
        if usable(s.last(), domain, path) {
            assert(r.push(session_cookie(s.last()))[m] == session_cookie(s[i]));
        }
    } else {
        assert(r.push(session_cookie(s.last()))[r.len() as int] == session_cookie(s[i]));
    }
}

/// Every cookie sent with a request is a usable cookie of the jar.
pub proof fn law_sent_cookie_usable(s: Seq<CookieView>, domain: Seq<char>, path: Seq<char>, m: int)
    requires
        0 <= m < usable_cookies(s, domain, path).len(),
    ensures
        exists|i: int| 0 <= i < s.len() && usable(s[i], domain, path)
            && usable_cookies(s, domain, path)[m] == session_cookie(#[trigger] s[i]),
    decreases s.len(),
{
    let t = s.drop_last();
    let r = usable_cookies(t, domain, path);
    if m < r.len() {
        law_sent_cookie_usable(t, domain, path, m);
        let i = choose|i: int| 0 <= i < t.len() && usable(t[i], domain, path) && r[m] == session_cookie(#[trigger] t[i]);
        assert(s[i] == t[i]);
    } else {
        assert(s[s.len() - 1] == s.last());
    }
}

/// The last piece of a split is not empty when the text does not end with the separator.
proof fn lemma_split_last_nonempty(s: Seq<char>, sep: char)
    requires
        s.len() > 0,
        s.last() != sep,
    ensures
        split_on(s, sep).last().len() > 0,
{
    crate::text::lemma_split_on_len(s.drop_last(), sep);
}

/// A cookie is sent back to the domain and the path it is stored for, when the domain
/// is not empty and the path is `/` or does not end with `/`.
pub proof fn law_usable_where_stored(c: CookieView)
    requires
        c.domain.len() > 0,
        c.path.len() > 0,
        c.path.last() != '/' || c.path == seq!['/'],
    ensures
        usable(c, c.domain, c.path),
{
    let p = c.path;
    if p.last() != '/' {
        lemma_split_last_nonempty(p, '/');
        crate::text::lemma_split_on_len(p, '/');
        let sp = split_on(p, '/');
        let tr = trim_first_empty(sp);
        assert(tr.last() == sp.last());
        assert(tr.reverse()[0] == tr.last());
        assert(path_segments(p) == request_segments(p));
    } else {
        assert(p.drop_last() =~= Seq::<char>::empty());
        assert(p.last() == '/');
        assert(split_on(p.drop_last(), '/') == seq![Seq::<char>::empty()]);
        assert(split_on(p, '/') =~= seq![Seq::<char>::empty(), Seq::<char>::empty()]);
        assert(path_segments(p) =~= Seq::<Seq<char>>::empty());
    }
}

/// Writing a jar cookie as a Netscape line and reading the line back gives the cookie
/// again, without its expiry, when its domain, path, name and value hold no tab.
pub proof fn law_netscape_round_trip(c: CookieView)
    requires
        no_char(c.domain, '\t'),
        no_char(c.path, '\t'),
        no_char(c.name, '\t'),
        no_char(c.value, '\t'),
    ensures
        netscape_cookie(netscape_line(c)) == Some(CookieView { expires: None, ..c }),
{
    let t = '\t';
    let w1 = flag_word(c.subdomains);
    let w2 = flag_word(c.secure);
    let e = expires_field(c.expires);
    assert(no_char(w1, t));
    assert(no_char(w2, t));
    match c.expires {
        Some(x) => lemma_int_decimal_no_char(x as int, t),
        None => assert(no_char(e, t)),
    }
    lemma_split_plain(c.domain, t);
    let a1 = c.domain + seq![t] + w1;
    lemma_split_field(c.domain, w1, t);
    let a2 = a1 + seq![t] + c.path;
    lemma_split_field(a1, c.path, t);
    let a3 = a2 + seq![t] + w2;
    lemma_split_field(a2, w2, t);
    let a4 = a3 + seq![t] + e;
    lemma_split_field(a3, e, t);
    let a5 = a4 + seq![t] + c.name;
    lemma_split_field(a4, c.name, t);
    lemma_split_field(a5, c.value, t);
    assert(netscape_line(c) == a5 + seq![t] + c.value);
    let parts = split_on(netscape_line(c), t);
    assert(parts =~= seq![c.domain, w1, c.path, w2, e, c.name, c.value]);
    assert(flag_word(false) != flag_word(true)) by {
        assert(flag_word(false).len() != flag_word(true).len());
    }
}

} // verus!
