use vstd::prelude::*;

use crate::curl_args::{split, split_spec};
use crate::text::{
    append_str, chars_eq, chars_of, contains_seq, ends_with_seq, i64_numeral, int_decimal, join, join_strings, lit,
    no_char, parse_i64, push_char, seqs, split_chars, split_on, starts_with_seq, str_contains, str_ends_with, str_eq,
    str_starts_with, string_of, i64_to_string, trim_chars, trimmed, views,
};

verus! {

/// An option of a Hurl request: a name and a value.
#[derive(Clone, Debug, PartialEq, Eq)]
pub struct HurlOption {
    pub name: String,
    pub value: String,
}

impl HurlOption {
    /// An option.
    pub fn new(name: &str, value: &str) -> (o: HurlOption)
        ensures
            o.name@ == name@,
            o.value@ == value@,
    {
        HurlOption { name: lit(name), value: lit(value) }
    }

    /// The option as a line of the `[Options]` section: `name: value`.
    pub fn to_string(&self) -> (s: String)
        ensures
            s@ == self.name@ + seq![':', ' '] + self.value@,
    {
        let mut s = self.name.clone();
        push_char(&mut s, ':');
        push_char(&mut s, ' ');
        append_str(&mut s, self.value.as_str());
        s
    }
}

/// The options of the curl command line that are understood.
#[derive(Clone, Copy, Debug, PartialEq, Eq, Structural)]
pub enum CurlOpt {
    Compressed,
    Location,
    Insecure,
    Header,
    Data,
    Method,
    MaxRedirects,
    Retry,
    Url,
}

/// The option of a long name.
pub open spec fn long_option(name: Seq<char>) -> Option<CurlOpt> {
    if name == "compressed"@ { Some(CurlOpt::Compressed) }
    else if name == "location"@ { Some(CurlOpt::Location) }
    else if name == "insecure"@ { Some(CurlOpt::Insecure) }
    else if name == "header"@ { Some(CurlOpt::Header) }
    else if name == "data"@ { Some(CurlOpt::Data) }
    else if name == "request"@ { Some(CurlOpt::Method) }
    else if name == "max-redirs"@ { Some(CurlOpt::MaxRedirects) }
    else if name == "retry"@ { Some(CurlOpt::Retry) }
    else if name == "url"@ { Some(CurlOpt::Url) }
    else { None }
}

/// The option of a short name.
pub open spec fn short_option(c: char) -> Option<CurlOpt> {
    if c == 'k' { Some(CurlOpt::Insecure) }
    else if c == 'L' { Some(CurlOpt::Location) }
    else if c == 'H' { Some(CurlOpt::Header) }
    else if c == 'd' { Some(CurlOpt::Data) }
    else if c == 'X' { Some(CurlOpt::Method) }
    else { None }
}

/// An option that takes no value.
pub open spec fn is_flag(o: CurlOpt) -> bool {
    o == CurlOpt::Compressed || o == CurlOpt::Location || o == CurlOpt::Insecure
}

/// How an option is named in messages.
pub open spec fn option_label(o: CurlOpt) -> Seq<char> {
    match o {
        CurlOpt::Compressed => "--compressed"@,
        CurlOpt::Location => "--location"@,
        CurlOpt::Insecure => "--insecure"@,
        CurlOpt::Header => "--header <NAME:VALUE>"@,
        CurlOpt::Data => "--data <data>"@,
        CurlOpt::Method => "--request <METHOD>"@,
        CurlOpt::MaxRedirects => "--max-redirs <NUM>"@,
        CurlOpt::Retry => "--retry <seconds>"@,
        CurlOpt::Url => "--url <url>"@,
    }
}

/// What the command line sets, as plain values.
pub struct ArgsModel {
    pub data: Option<Seq<char>>,
    pub method: Option<Seq<char>>,
    pub url: Option<Seq<char>>,
    pub url_param: Option<Seq<char>>,
    pub headers: Seq<Seq<char>>,
    pub compressed: bool,
    pub location: bool,
    pub insecure: bool,
    pub max_redirects: Option<i32>,
    pub retry: Option<i32>,
}

/// Nothing set.
pub open spec fn no_args() -> ArgsModel {
    ArgsModel {
        data: None,
        method: None,
        url: None,
        url_param: None,
        headers: Seq::empty(),
        compressed: false,
        location: false,
        insecure: false,
        max_redirects: None,
        retry: None,
    }
}

/// `the argument '..' cannot be used multiple times`.
pub open spec fn repeated_error(o: CurlOpt) -> Seq<char> {
    "the argument '"@ + option_label(o) + "' cannot be used multiple times"@
}

/// `invalid value '..' for '..'`.
pub open spec fn invalid_value_error(o: CurlOpt, v: Seq<char>) -> Seq<char> {
    "invalid value '"@ + v + "' for '"@ + option_label(o) + "'"@
}

/// A header is `NAME:VALUE`, or `NAME;` for an empty header.
pub open spec fn header_ok(v: Seq<char>) -> bool {
    contains_seq(v, ":"@) || ends_with_seq(v, ";"@)
}

/// The message for a header that is not well formed.
pub open spec fn header_error(v: Seq<char>) -> Seq<char> {
    invalid_value_error(CurlOpt::Header, v) + ": headers must be formatted as '<NAME:VALUE>' or '<NAME>;'"@
}

/// The value of an option that takes a 32-bit integer, at least `min`.
pub open spec fn i32_value(v: Seq<char>, min: int) -> Option<i32> {
    match i64_numeral(v) {
        Some(n) => if min <= n <= i32::MAX { Some(n as i32) } else { None },
        None => None,
    }
}

/// The arguments after setting a flag.
pub open spec fn set_flag(a: ArgsModel, o: CurlOpt) -> Result<ArgsModel, Seq<char>> {
    match o {
        CurlOpt::Compressed => if a.compressed { Err(repeated_error(o)) } else { Ok(ArgsModel { compressed: true, ..a }) },
        CurlOpt::Location => if a.location { Err(repeated_error(o)) } else { Ok(ArgsModel { location: true, ..a }) },
        _ => if a.insecure { Err(repeated_error(o)) } else { Ok(ArgsModel { insecure: true, ..a }) },
    }
}

/// The arguments after giving a value to an option.
pub open spec fn set_value(a: ArgsModel, o: CurlOpt, v: Seq<char>) -> Result<ArgsModel, Seq<char>> {
    match o {
        CurlOpt::Header => if header_ok(v) { Ok(ArgsModel { headers: a.headers.push(v), ..a }) } else { Err(header_error(v)) },
        CurlOpt::Data => if a.data is Some { Err(repeated_error(o)) } else { Ok(ArgsModel { data: Some(v), ..a }) },
        CurlOpt::Method => if a.method is Some { Err(repeated_error(o)) } else { Ok(ArgsModel { method: Some(v), ..a }) },
        CurlOpt::Url => if a.url is Some { Err(repeated_error(o)) } else { Ok(ArgsModel { url: Some(v), ..a }) },
        CurlOpt::MaxRedirects => if a.max_redirects is Some {
            Err(repeated_error(o))
        } else {
            match i32_value(v, -1) {
                Some(n) => Ok(ArgsModel { max_redirects: Some(n), ..a }),
                None => Err(invalid_value_error(o, v)),
            }
        },
        _ => if a.retry is Some {
            Err(repeated_error(o))
        } else {
            match i32_value(v, i32::MIN as int) {
                Some(n) => Ok(ArgsModel { retry: Some(n), ..a }),
                None => Err(invalid_value_error(o, v)),
            }
        },
    }
}

/// A token may be the value of an option: it does not look like an option, unless the
/// option takes such values (`--max-redirs`).
pub open spec fn value_token(o: CurlOpt, t: Seq<char>) -> bool {
    o == CurlOpt::MaxRedirects || !starts_with_seq(t, "-"@) || t == "-"@
}

/// `a value is required for '..' but none was supplied`.
pub open spec fn missing_value_error(o: CurlOpt) -> Seq<char> {
    "a value is required for '"@ + option_label(o) + "' but none was supplied"@
}

/// `unexpected argument '..' found`.
pub open spec fn unexpected_error(t: Seq<char>) -> Seq<char> {
    "unexpected argument '"@ + t + "' found"@
}

/// The index of the first `=` in a text, or its length.
pub open spec fn eq_index(s: Seq<char>) -> int
    decreases s.len(),
{
    if s.len() == 0 {
        0
    } else if s[0] == '=' {
        0
    } else {
        1 + eq_index(s.drop_first())
    }
}

/// Reads the command line from token `i`, at character `k` of a cluster of short
/// options (`k == 0` at the start of a token); the first token is the program name.
pub open spec fn scan(ts: Seq<Seq<char>>, i: int, k: int, a: ArgsModel) -> Result<ArgsModel, Seq<char>>
    decreases ts.len() - i, if 0 <= i < ts.len() { ts[i].len() - k } else { 0 },
{
    if i < 0 || i >= ts.len() {
        Ok(a)
    } else {
        let t = ts[i];
        if k > 0 {
            // inside a cluster of short options
            if k >= t.len() {
                scan(ts, i + 1, 0, a)
            } else {
                match short_option(t[k]) {
                    None => Err(unexpected_error(seq!['-', t[k]])),
                    Some(o) => if is_flag(o) {
                        match set_flag(a, o) {
                            Ok(b) => scan(ts, i, k + 1, b),
                            Err(e) => Err(e),
                        }
                    } else if k + 1 < t.len() {
                        match set_value(a, o, t.skip(k + 1)) {
                            Ok(b) => scan(ts, i + 1, 0, b),
                            Err(e) => Err(e),
                        }
                    } else if i + 1 < ts.len() && value_token(o, ts[i + 1]) {
                        match set_value(a, o, ts[i + 1]) {
                            Ok(b) => scan(ts, i + 2, 0, b),
                            Err(e) => Err(e),
                        }
                    } else {
                        Err(missing_value_error(o))
                    },
                }
            }
        } else if t.len() >= 2 && t[0] == '-' && t[1] == '-' {
            let body = t.skip(2);
            let n = eq_index(body);
            let name = body.take(n);
            match long_option(name) {
                None => Err(unexpected_error(t)),
                Some(o) => if is_flag(o) {
                    if n < body.len() {
                        Err("unexpected value '"@ + body.skip(n + 1) + "' for '"@ + option_label(o) + "' found; no more were expected"@)
                    } else {
                        match set_flag(a, o) {
                            Ok(b) => scan(ts, i + 1, 0, b),
                            Err(e) => Err(e),
                        }
                    }
                } else if n < body.len() {
                    match set_value(a, o, body.skip(n + 1)) {
                        Ok(b) => scan(ts, i + 1, 0, b),
                        Err(e) => Err(e),
                    }
                } else if i + 1 < ts.len() && value_token(o, ts[i + 1]) {
                    match set_value(a, o, ts[i + 1]) {
                        Ok(b) => scan(ts, i + 2, 0, b),
                        Err(e) => Err(e),
                    }
                } else {
                    Err(missing_value_error(o))
                },
            }
        } else if t.len() >= 2 && t[0] == '-' {
            scan(ts, i, 1, a)
        } else if a.url_param is Some {
            Err(unexpected_error(t))
        } else {
            scan(ts, i + 1, 0, ArgsModel { url_param: Some(t), ..a })
        }
    }
}

/// What the tokens of a command line set; the first token is the program name.
pub open spec fn curl_args(ts: Seq<Seq<char>>) -> Result<ArgsModel, Seq<char>> {
    scan(ts, 1, 0, no_args())
}

/// What the command line sets.
pub struct CurlArgs {
    pub data: Option<String>,
    pub method: Option<String>,
    pub url: Option<String>,
    pub url_param: Option<String>,
    pub headers: Vec<String>,
    pub compressed: bool,
    pub location: bool,
    pub insecure: bool,
    pub max_redirects: Option<i32>,
    pub retry: Option<i32>,
}

/// The view of an optional string.
pub open spec fn opt_chars(o: Option<String>) -> Option<Seq<char>> {
    match o {
        Some(s) => Some(s@),
        None => None,
    }
}

impl View for CurlArgs {
    type V = ArgsModel;

    open spec fn view(&self) -> ArgsModel {
        ArgsModel {
            data: opt_chars(self.data),
            method: opt_chars(self.method),
            url: opt_chars(self.url),
            url_param: opt_chars(self.url_param),
            headers: self.headers@.map_values(|h: String| h@),
            compressed: self.compressed,
            location: self.location,
            insecure: self.insecure,
            max_redirects: self.max_redirects,
            retry: self.retry,
        }
    }
}

/// The option of a long name.
fn long_option_of(name: &str) -> (r: Option<CurlOpt>)
    ensures
        r == long_option(name@),
{
    if str_eq(name, "compressed") { Some(CurlOpt::Compressed) }
    else if str_eq(name, "location") { Some(CurlOpt::Location) }
    else if str_eq(name, "insecure") { Some(CurlOpt::Insecure) }
    else if str_eq(name, "header") { Some(CurlOpt::Header) }
    else if str_eq(name, "data") { Some(CurlOpt::Data) }
    else if str_eq(name, "request") { Some(CurlOpt::Method) }
    else if str_eq(name, "max-redirs") { Some(CurlOpt::MaxRedirects) }
    else if str_eq(name, "retry") { Some(CurlOpt::Retry) }
    else if str_eq(name, "url") { Some(CurlOpt::Url) }
    else { None }
}

/// The option of a short name.
fn short_option_of(c: char) -> (r: Option<CurlOpt>)
    ensures
        r == short_option(c),
{
    if c == 'k' { Some(CurlOpt::Insecure) }
    else if c == 'L' { Some(CurlOpt::Location) }
    else if c == 'H' { Some(CurlOpt::Header) }
    else if c == 'd' { Some(CurlOpt::Data) }
    else if c == 'X' { Some(CurlOpt::Method) }
    else { None }
}

/// How an option is named in messages.
fn label_of(o: CurlOpt) -> (s: String)
    ensures
        s@ == option_label(o),
{
    match o {
        CurlOpt::Compressed => lit("--compressed"),
        CurlOpt::Location => lit("--location"),
        CurlOpt::Insecure => lit("--insecure"),
        CurlOpt::Header => lit("--header <NAME:VALUE>"),
        CurlOpt::Data => lit("--data <data>"),
        CurlOpt::Method => lit("--request <METHOD>"),
        CurlOpt::MaxRedirects => lit("--max-redirs <NUM>"),
        CurlOpt::Retry => lit("--retry <seconds>"),
        CurlOpt::Url => lit("--url <url>"),
    }
}

/// `a` + `b` + `c`, as a new string.
fn concat3(a: &str, b: &str, c: &str) -> (s: String)
    ensures
        s@ == a@ + b@ + c@,
{
    let mut s = lit(a);
    append_str(&mut s, b);
    append_str(&mut s, c);
    s
}

/// The message for an option given twice.
fn repeated(o: CurlOpt) -> (e: String)
    ensures
        e@ == repeated_error(o),
{
    let l = label_of(o);
    concat3("the argument '", l.as_str(), "' cannot be used multiple times")
}

/// The message for a value that an option refuses.
fn invalid_value(o: CurlOpt, v: &str) -> (e: String)
    ensures
        e@ == invalid_value_error(o, v@),
{
    let l = label_of(o);
    let mut e = concat3("invalid value '", v, "' for '");
    append_str(&mut e, l.as_str());
    append_str(&mut e, "'");
    e
}

/// The value of an option that takes a 32-bit integer, at least `min`.
fn i32_of(v: &str, min: i32) -> (r: Option<i32>)
    ensures
        r == i32_value(v@, min as int),
{
    match parse_i64(v) {
        Some(n) => if min as i64 <= n && n <= i32::MAX as i64 { Some(n as i32) } else { None },
        None => None,
    }
}

impl CurlArgs {
    /// Nothing set.
    fn empty() -> (a: CurlArgs)
        ensures
            a@ == no_args(),
    {
        let a = CurlArgs {
            data: None,
            method: None,
            url: None,
            url_param: None,
            headers: Vec::new(),
            compressed: false,
            location: false,
            insecure: false,
            max_redirects: None,
            retry: None,
        };
        assert(a.headers@.map_values(|h: String| h@) =~= Seq::<Seq<char>>::empty());
        assert(a@ == no_args());
        a
    }

    /// Sets a flag.
    fn set_flag(&mut self, o: CurlOpt) -> (r: Result<(), String>)
        requires
            is_flag(o),
        ensures
            match set_flag(old(self)@, o) {
                Ok(b) => r is Ok && final(self)@ == b,
                Err(m) => r matches Err(e) && e@ == m,
            },
    {
        match o {
            CurlOpt::Compressed => {
                if self.compressed {
                    return Err(repeated(o));
                }
                self.compressed = true;
            },
            CurlOpt::Location => {
                if self.location {
                    return Err(repeated(o));
                }
                self.location = true;
            },
            _ => {
                if self.insecure {
                    return Err(repeated(o));
                }
                self.insecure = true;
            },
        }
        Ok(())
    }

    /// Gives a value to an option.
    fn set_value(&mut self, o: CurlOpt, v: String) -> (r: Result<(), String>)
        requires
            !is_flag(o),
        ensures
            match set_value(old(self)@, o, v@) {
                Ok(b) => r is Ok && final(self)@ == b,
                Err(m) => r matches Err(e) && e@ == m,
            },
    {
        match o {
            CurlOpt::Header => {
                if str_contains(v.as_str(), ":") || str_ends_with(v.as_str(), ";") {
                    let ghost before = self.headers@;
                    self.headers.push(v);
                    assert(self.headers@.map_values(|h: String| h@) =~= before.map_values(|h: String| h@).push(v@));
                    Ok(())
                } else {
                    let mut e = invalid_value(o, v.as_str());
                    append_str(&mut e, ": headers must be formatted as '<NAME:VALUE>' or '<NAME>;'");
                    Err(e)
                }
            },
            CurlOpt::Data => {
                if self.data.is_some() {
                    return Err(repeated(o));
                }
                self.data = Some(v);
                Ok(())
            },
            CurlOpt::Method => {
                if self.method.is_some() {
                    return Err(repeated(o));
                }
                self.method = Some(v);
                Ok(())
            },
            CurlOpt::Url => {
                if self.url.is_some() {
                    return Err(repeated(o));
                }
                self.url = Some(v);
                Ok(())
            },
            CurlOpt::MaxRedirects => {
                if self.max_redirects.is_some() {
                    return Err(repeated(o));
                }
                match i32_of(v.as_str(), -1) {
                    Some(n) => {
                        self.max_redirects = Some(n);
                        Ok(())
                    },
                    None => Err(invalid_value(o, v.as_str())),
                }
            },
            _ => {
                if self.retry.is_some() {
                    return Err(repeated(o));
                }
                match i32_of(v.as_str(), i32::MIN) {
                    Some(n) => {
                        self.retry = Some(n);
                        Ok(())
                    },
                    None => Err(invalid_value(o, v.as_str())),
                }
            },
        }
    }
}

/// The first `=` is at `j`.
proof fn lemma_eq_index(s: Seq<char>, j: int)
    requires
        0 <= j <= s.len(),
        forall|k: int| 0 <= k < j ==> s[k] != '=',
        j == s.len() || s[j] == '=',
    ensures
        eq_index(s) == j,
    decreases j,
{
    if j > 0 {
        lemma_eq_index(s.drop_first(), j - 1);
    }
}

/// The index of the first `=`, or the length.
fn eq_index_of(s: &[char]) -> (j: usize)
    ensures
        j == eq_index(s@),
        j <= s.len(),
{
    let mut j: usize = 0;
    while j < s.len() && s[j] != '='
        invariant
            j <= s.len(),
            forall|k: int| 0 <= k < j ==> s@[k] != '=',
        decreases s.len() - j,
    {
        j += 1;
    }
    proof {
        lemma_eq_index(s@, j as int);
    }
    j
}

/// Whether a token may be the value of an option.
fn is_value_token(o: CurlOpt, t: &str) -> (b: bool)
    ensures
        b == value_token(o, t@),
{
    o == CurlOpt::MaxRedirects || !str_starts_with(t, "-") || str_eq(t, "-")
}

/// The message for an option without its value.
fn missing_value(o: CurlOpt) -> (e: String)
    ensures
        e@ == missing_value_error(o),
{
    let l = label_of(o);
    concat3("a value is required for '", l.as_str(), "' but none was supplied")
}

/// The message for a token that is not understood.
fn unexpected(t: &str) -> (e: String)
    ensures
        e@ == unexpected_error(t@),
{
    concat3("unexpected argument '", t, "' found")
}

/// The views of strings.
pub open spec fn token_views(ts: Seq<String>) -> Seq<Seq<char>> {
    ts.map_values(|t: String| t@)
}

/// Reads the options of a curl command line, given as tokens; the first token is the
/// program name.
pub fn read_args(tokens: &Vec<String>) -> (r: Result<CurlArgs, String>)
    ensures
        match curl_args(token_views(tokens@)) {
            Ok(m) => r matches Ok(a) && a@ == m,
            Err(m) => r matches Err(e) && e@ == m,
        },
{
    let ghost ts = token_views(tokens@);
    let mut a = CurlArgs::empty();
    let mut i: usize = 1;
    let mut k: usize = 0;
    while i < tokens.len()
        invariant
            ts == token_views(tokens@),
            1 <= i,
            k > 0 ==> i < tokens.len() && k <= ts[i as int].len(),
            curl_args(ts) == scan(ts, i as int, k as int, a@),
        decreases tokens.len() - i, if i < tokens.len() { ts[i as int].len() - k } else { 0 },
    {
        let t = chars_of(tokens[i].as_str());
        assert(t@ == ts[i as int]);
        if k > 0 {
            if k >= t.len() {
                i += 1;
                k = 0;
            } else {
                match short_option_of(t[k]) {
                    None => {
                        let mut name = lit("-");
                        push_char(&mut name, t[k]);
                        proof {
                            reveal_strlit("-");
                        }
                        assert(name@ =~= seq!['-', t@[k as int]]);
                        return Err(unexpected(name.as_str()));
                    },
                    Some(o) => {
                        if o == CurlOpt::Compressed || o == CurlOpt::Location || o == CurlOpt::Insecure {
                            match a.set_flag(o) {
                                Ok(()) => {},
                                Err(e) => {
                                    return Err(e);
                                },
                            }
                            k += 1;
                        } else if k + 1 < t.len() {
                            let v = string_of(&t.as_slice()[k + 1..t.len()]);
                            assert(v@ =~= t@.skip(k + 1));
                            match a.set_value(o, v) {
                                Ok(()) => {},
                                Err(e) => {
                                    return Err(e);
                                },
                            }
                            i += 1;
                            k = 0;
                        } else if i + 1 < tokens.len() && is_value_token(o, tokens[i + 1].as_str()) {
                            let v = tokens[i + 1].clone();
                            match a.set_value(o, v) {
                                Ok(()) => {},
                                Err(e) => {
                                    return Err(e);
                                },
                            }
                            i += 2;
                            k = 0;
                        } else {
                            return Err(missing_value(o));
                        }
                    },
                }
            }
        } else if t.len() >= 2 && t[0] == '-' && t[1] == '-' {
            let body = &t.as_slice()[2..t.len()];
            assert(body@ =~= t@.skip(2));
            let n = eq_index_of(body);
            let name = string_of(&body[0..n]);
            assert(name@ =~= body@.take(n as int));
            match long_option_of(name.as_str()) {
                None => {
                    return Err(unexpected(tokens[i].as_str()));
                },
                Some(o) => {
                    if o == CurlOpt::Compressed || o == CurlOpt::Location || o == CurlOpt::Insecure {
                        if n < body.len() {
                            let v = string_of(&body[n + 1..body.len()]);
                            assert(v@ =~= body@.skip(n + 1));
                            let l = label_of(o);
                            let mut e = concat3("unexpected value '", v.as_str(), "' for '");
                            append_str(&mut e, l.as_str());
                            append_str(&mut e, "' found; no more were expected");
                            return Err(e);
                        }
                        match a.set_flag(o) {
                            Ok(()) => {},
                            Err(e) => {
                                return Err(e);
                            },
                        }
                        i += 1;
                    } else if n < body.len() {
                        let v = string_of(&body[n + 1..body.len()]);
                        assert(v@ =~= body@.skip(n + 1));
                        match a.set_value(o, v) {
                            Ok(()) => {},
                            Err(e) => {
                                return Err(e);
                            },
                        }
                        i += 1;
                    } else if i + 1 < tokens.len() && is_value_token(o, tokens[i + 1].as_str()) {
                        let v = tokens[i + 1].clone();
                        match a.set_value(o, v) {
                            Ok(()) => {},
                            Err(e) => {
                                return Err(e);
                            },
                        }
                        i += 2;
                    } else {
                        return Err(missing_value(o));
                    }
                },
            }
        } else if t.len() >= 2 && t[0] == '-' {
            k = 1;
        } else if a.url_param.is_some() {
            return Err(unexpected(tokens[i].as_str()));
        } else {
            a.url_param = Some(tokens[i].clone());
            i += 1;
        }
    }
    Ok(a)
}

/// The body of the request: a file for `@name`, else the data between backquotes.
pub open spec fn body_spec(m: ArgsModel) -> Option<Seq<char>> {
    match m.data {
        None => None,
        Some(v) => if starts_with_seq(v, "@"@) {
            Some("file, "@ + v.skip(1) + ";"@)
        } else {
            Some("```"@ + v + "```"@)
        },
    }
}

/// The method: as given, else `POST` when there is data, else `GET`.
pub open spec fn method_spec(m: ArgsModel) -> Seq<char> {
    match m.method {
        Some(v) => v,
        None => if m.data is Some { "POST"@ } else { "GET"@ },
    }
}

/// The URL: as given by `--url`, else the positional one; `https://` is added when it does
/// not start with `http`.
pub open spec fn url_spec(m: ArgsModel) -> Seq<char> {
    let s = match m.url {
        Some(v) => v,
        None => m.url_param->0,
    };
    if starts_with_seq(s, "http"@) { s } else { "https://"@ + s }
}

/// Some header starts with `Content-Type`.
pub open spec fn has_content_type_spec(headers: Seq<Seq<char>>) -> bool {
    exists|i: int| 0 <= i < headers.len() && starts_with_seq(#[trigger] headers[i], "Content-Type"@)
}

/// The headers: as given, and a form content type when data that is not a file is sent
/// without a content type.
pub open spec fn headers_spec(m: ArgsModel) -> Seq<Seq<char>> {
    if !has_content_type_spec(m.headers) && (m.data matches Some(d) && !starts_with_seq(d, "@"@)) {
        m.headers.push("Content-Type: application/x-www-form-urlencoded"@)
    } else {
        m.headers
    }
}

/// The options, in a fixed order.
pub open spec fn options_spec(m: ArgsModel) -> Seq<(Seq<char>, Seq<char>)> {
    let o1: Seq<(Seq<char>, Seq<char>)> = if m.compressed { seq![("compressed"@, "true"@)] } else { Seq::empty() };
    let o2: Seq<(Seq<char>, Seq<char>)> = if m.location { seq![("location"@, "true"@)] } else { Seq::empty() };
    let o3: Seq<(Seq<char>, Seq<char>)> = if m.insecure { seq![("insecure"@, "true"@)] } else { Seq::empty() };
    let o4: Seq<(Seq<char>, Seq<char>)> = match m.max_redirects { Some(n) => seq![("max-redirs"@, int_decimal(n as int))], None => Seq::empty() };
    let o5: Seq<(Seq<char>, Seq<char>)> = match m.retry { Some(n) => seq![("retry"@, int_decimal(n as int))], None => Seq::empty() };
    o1 + o2 + o3 + o4 + o5
}

/// Lines, each after a newline.
pub open spec fn lines_after(ls: Seq<Seq<char>>) -> Seq<char>
    decreases ls.len(),
{
    if ls.len() == 0 {
        Seq::empty()
    } else {
        lines_after(ls.drop_last()) + seq!['\n'] + ls.last()
    }
}

/// The option lines `name: value`.
pub open spec fn option_lines(os: Seq<(Seq<char>, Seq<char>)>) -> Seq<Seq<char>> {
    os.map_values(|o: (Seq<char>, Seq<char>)| o.0 + seq![':', ' '] + o.1)
}

/// The Hurl text of a request: the request line, the headers, the `[Options]` section
/// when there are options, the body when there is one, and a final newline.
pub open spec fn hurl_text(method: Seq<char>, url: Seq<char>, headers: Seq<Seq<char>>, options: Seq<Seq<char>>, body: Option<Seq<char>>) -> Seq<char> {
    method + seq![' '] + url + lines_after(headers)
        + (if options.len() > 0 { "\n[Options]"@ + lines_after(options) } else { Seq::empty() })
        + (match body { Some(b) => seq!['\n'] + b, None => Seq::empty() })
        + seq!['\n']
}

/// The Hurl text of a curl command line.
pub open spec fn curl_to_hurl(m: ArgsModel) -> Seq<char> {
    hurl_text(method_spec(m), url_spec(m), headers_spec(m), option_lines(options_spec(m)), body_spec(m))
}

/// The body of the request.
pub fn body(a: &CurlArgs) -> (r: Option<String>)
    ensures
        opt_chars(r) == body_spec(a@),
{
    match &a.data {
        None => None,
        Some(v) => {
            if str_starts_with(v.as_str(), "@") {
                proof {
                    reveal_strlit("@");
                }
                let chars = chars_of(v.as_str());
                let name = string_of(&chars.as_slice()[1..chars.len()]);
                assert(name@ =~= v@.skip(1));
                Some(concat3("file, ", name.as_str(), ";"))
            } else {
                Some(concat3("```", v.as_str(), "```"))
            }
        },
    }
}

/// The method of the request.
pub fn method(a: &CurlArgs) -> (r: String)
    ensures
        r@ == method_spec(a@),
{
    match &a.method {
        None => if a.data.is_some() { lit("POST") } else { lit("GET") },
        Some(v) => v.clone(),
    }
}

/// The URL of the request.
pub fn url(a: &CurlArgs) -> (r: String)
    requires
        a@.url is Some || a@.url_param is Some,
    ensures
        r@ == url_spec(a@),
{
    let s = match &a.url {
        Some(v) => v.clone(),
        None => match &a.url_param {
            Some(v) => v.clone(),
            None => {
                assert(false);
                String::new()
            },
        },
    };
    if !str_starts_with(s.as_str(), "http") {
        let mut r = lit("https://");
        append_str(&mut r, s.as_str());
        r
    } else {
        s
    }
}

/// Whether some header starts with `Content-Type`.
pub fn has_content_type(headers: &Vec<String>) -> (b: bool)
    ensures
        b == has_content_type_spec(headers@.map_values(|h: String| h@)),
{
    let ghost hs = headers@.map_values(|h: String| h@);
    let mut i: usize = 0;
    while i < headers.len()
        invariant
            i <= headers.len(),
            hs == headers@.map_values(|h: String| h@),
            forall|k: int| 0 <= k < i ==> !starts_with_seq(#[trigger] hs[k], "Content-Type"@),
        decreases headers.len() - i,
    {
        if str_starts_with(headers[i].as_str(), "Content-Type") {
            assert(starts_with_seq(hs[i as int], "Content-Type"@));
            return true;
        }
        i += 1;
    }
    false
}

/// The headers of the request.
pub fn headers(a: &CurlArgs) -> (r: Vec<String>)
    ensures
        r@.map_values(|h: String| h@) == headers_spec(a@),
{
    let mut headers: Vec<String> = Vec::new();
    let mut i: usize = 0;
    while i < a.headers.len()
        invariant
            i <= a.headers.len(),
            headers@.map_values(|h: String| h@) == a.headers@.map_values(|h: String| h@).take(i as int),
        decreases a.headers.len() - i,
    {
        let h = a.headers[i].clone();
        let ghost before = headers@;
        headers.push(h);
        assert(headers@.map_values(|h: String| h@) =~= before.map_values(|h: String| h@).push(h@));
        assert(a.headers@.map_values(|h: String| h@).take(i + 1) =~= a.headers@.map_values(|h: String| h@).take(i as int).push(a.headers@[i as int]@));
        i += 1;
        assert(headers@.map_values(|h: String| h@) =~= a.headers@.map_values(|h: String| h@).take(i as int));
    }
    assert(a.headers@.map_values(|h: String| h@).take(a.headers.len() as int) =~= a.headers@.map_values(|h: String| h@));
    if !has_content_type(&headers) {
        if let Some(data) = &a.data {
            if !str_starts_with(data.as_str(), "@") {
                let ghost before = headers@.map_values(|h: String| h@);
                headers.push(lit("Content-Type: application/x-www-form-urlencoded"));
                assert(headers@.map_values(|h: String| h@) =~= before.push("Content-Type: application/x-www-form-urlencoded"@));
            }
        }
    }
    headers
}

/// The options of the request.
pub fn options(a: &CurlArgs) -> (r: Vec<HurlOption>)
    ensures
        r@.map_values(|o: HurlOption| (o.name@, o.value@)) == options_spec(a@),
{
    let mut options: Vec<HurlOption> = Vec::new();
    let ghost m = a@;
    if a.compressed {
        options.push(HurlOption::new("compressed", "true"));
    }
    if a.location {
        options.push(HurlOption::new("location", "true"));
    }
    if a.insecure {
        options.push(HurlOption::new("insecure", "true"));
    }
    if let Some(n) = a.max_redirects {
        let t = i64_to_string(n as i64);
        options.push(HurlOption::new("max-redirs", t.as_str()));
    }
    if let Some(n) = a.retry {
        let t = i64_to_string(n as i64);
        options.push(HurlOption::new("retry", t.as_str()));
    }
    assert(options@.map_values(|o: HurlOption| (o.name@, o.value@)) =~= options_spec(m));
    options
}

/// Appends lines, each after a newline.
fn push_lines(s: &mut String, ls: &Vec<String>)
    ensures
        final(s)@ == old(s)@ + lines_after(ls@.map_values(|l: String| l@)),
{
    let ghost all = ls@.map_values(|l: String| l@);
    let mut i: usize = 0;
    while i < ls.len()
        invariant
            i <= ls.len(),
            all == ls@.map_values(|l: String| l@),
            s@ == old(s)@ + lines_after(all.take(i as int)),
        decreases ls.len() - i,
    {
        assert(all.take(i + 1).drop_last() =~= all.take(i as int));
        push_char(s, '\n');
        append_str(s, ls[i].as_str());
        i += 1;
        assert(s@ =~= old(s)@ + lines_after(all.take(i as int)));
    }
    assert(all.take(ls.len() as int) =~= all);
}

/// The Hurl text of a request.
pub fn format(method: &str, url: &str, headers: Vec<String>, options: Vec<HurlOption>, body: Option<String>) -> (s: String)
    ensures
        s@ == hurl_text(method@, url@, headers@.map_values(|h: String| h@),
            option_lines(options@.map_values(|o: HurlOption| (o.name@, o.value@))), opt_chars(body)),
{
    let mut s = lit(method);
    push_char(&mut s, ' ');
    append_str(&mut s, url);
    push_lines(&mut s, &headers);
    let ghost p = s@;
    let mut lines: Vec<String> = Vec::new();
    let mut i: usize = 0;
    while i < options.len()
        invariant
            i <= options.len(),
            lines@.map_values(|l: String| l@) == option_lines(options@.map_values(|o: HurlOption| (o.name@, o.value@))).take(i as int),
        decreases options.len() - i,
    {
        let l = options[i].to_string();
        let ghost before = lines@;
        lines.push(l);
        assert(lines@.map_values(|l: String| l@) =~= before.map_values(|l: String| l@).push(l@));
        let ghost ol = option_lines(options@.map_values(|o: HurlOption| (o.name@, o.value@)));
        assert(ol.take(i + 1) =~= ol.take(i as int).push(ol[i as int]));
        i += 1;
        assert(lines@.map_values(|l: String| l@) =~= option_lines(options@.map_values(|o: HurlOption| (o.name@, o.value@))).take(i as int));
    }
    assert(option_lines(options@.map_values(|o: HurlOption| (o.name@, o.value@))).take(options.len() as int)
        =~= option_lines(options@.map_values(|o: HurlOption| (o.name@, o.value@))));
    if options.len() > 0 {
        append_str(&mut s, "\n[Options]");
        push_lines(&mut s, &lines);
    }
    if let Some(b) = &body {
        push_char(&mut s, '\n');
        append_str(&mut s, b.as_str());
    }
    push_char(&mut s, '\n');
    assert(s@ =~= hurl_text(method@, url@, headers@.map_values(|h: String| h@),
        option_lines(options@.map_values(|o: HurlOption| (o.name@, o.value@))), opt_chars(body)));
    s
}

/// The command line sets a URL, when it can be read.
pub open spec fn url_given(s: Seq<char>) -> bool {
    match split_spec(s) {
        Ok(ts) => match curl_args(ts) {
            Ok(m) => m.url is Some || m.url_param is Some,
            Err(_) => true,
        },
        Err(_) => true,
    }
}

/// The Hurl text of a curl command line, or the error: of splitting the line, or of
/// reading its options.
pub open spec fn parse_spec(s: Seq<char>) -> Result<Seq<char>, Seq<char>> {
    match split_spec(s) {
        Ok(ts) => match curl_args(ts) {
            Ok(m) => Ok(curl_to_hurl(m)),
            Err(e) => Err(e),
        },
        Err(e) => Err(e),
    }
}

/// Converts a curl command line into a Hurl request.
pub fn parse(s: &str) -> (r: Result<String, String>)
    requires
        url_given(s@),
    ensures
        match parse_spec(s@) {
            Ok(h) => r matches Ok(t) && t@ == h,
            Err(m) => r matches Err(e) && e@ == m,
        },
{
    let params = match split(s) {
        Ok(p) => p,
        Err(e) => {
            return Err(e);
        },
    };
    assert(token_views(params@) == params@.map_values(|p: String| p@));
    let a = match read_args(&params) {
        Ok(a) => a,
        Err(e) => {
            return Err(e);
        },
    };
    let method = method(&a);
    let url = url(&a);
    let headers = headers(&a);
    let options = options(&a);
    let body = body(&a);
    let r = format(method.as_str(), url.as_str(), headers, options, body);
    assert(options_spec(a@).map_values(|o: (Seq<char>, Seq<char>)| o.0 + seq![':', ' '] + o.1) == option_lines(options_spec(a@)));
    Ok(r)
}


/// The trimmed, non-empty items of a `--cookie` value that are `name=value` pairs, in
/// order.
pub open spec fn cookie_pairs(ps: Seq<Seq<char>>) -> Seq<Seq<char>>
    decreases ps.len(),
{
    if ps.len() == 0 {
        Seq::empty()
    } else {
        let r = cookie_pairs(ps.drop_last());
        let t = trimmed(ps.last());
        if t.len() > 0 && !no_char(t, '=') { r.push(t) } else { r }
    }
}

/// The trimmed, non-empty items of a `--cookie` value that are not pairs, in order.
pub open spec fn bad_cookie_pairs(ps: Seq<Seq<char>>) -> Seq<Seq<char>>
    decreases ps.len(),
{
    if ps.len() == 0 {
        Seq::empty()
    } else {
        let r = bad_cookie_pairs(ps.drop_last());
        let t = trimmed(ps.last());
        if t.len() > 0 && no_char(t, '=') { r.push(t) } else { r }
    }
}

/// A `--cookie` value read as `name=value` pairs separated by `;`: the pairs joined with
/// `; `, or why the value is refused (empty, or with items that are not pairs).
pub open spec fn cookie_option(v: Seq<char>) -> Result<Seq<char>, Seq<char>> {
    let ps = split_on(v, ';');
    let bad = bad_cookie_pairs(ps);
    if trimmed(v).len() == 0 {
        Err("empty value provided"@)
    } else if bad.len() == 0 {
        Ok(join(cookie_pairs(ps), "; "@))
    } else if bad.len() == 1 {
        Err("invalid cookie pair provided"@)
    } else {
        Err("invalid cookie pairs provided: ["@ + join(bad, ", "@) + "]"@)
    }
}

/// Whether a character occurs in characters.
fn has_char(v: &[char], c: char) -> (b: bool)
    ensures
        b == !no_char(v@, c),
{
    let mut i: usize = 0;
    while i < v.len()
        invariant
            i <= v.len(),
            forall|k: int| 0 <= k < i ==> v@[k] != c,
        decreases v.len() - i,
    {
        if v[i] == c {
            return true;
        }
        i += 1;
    }
    false
}

/// Reads the value of a `--cookie` option: `name=value` pairs separated by `;`.
pub fn parse_cookie_option(value: &str) -> (r: Result<String, String>)
    ensures
        match cookie_option(value@) {
            Ok(t) => r matches Ok(x) && x@ == t,
            Err(m) => r matches Err(x) && x@ == m,
        },
{
    let chars = chars_of(value);
    let all = trim_chars(chars.as_slice());
    if all.len() == 0 {
        return Err(lit("empty value provided"));
    }
    let pieces = split_chars(chars.as_slice(), ';');
    let ghost ps = seqs(pieces@);
    let mut valid: Vec<String> = Vec::new();
    let mut invalid: Vec<String> = Vec::new();
    let mut i: usize = 0;
    assert(views(valid@) =~= Seq::<Seq<char>>::empty());
    assert(views(invalid@) =~= Seq::<Seq<char>>::empty());
    assert(ps.take(0) =~= Seq::<Seq<char>>::empty());
    while i < pieces.len()
        invariant
            i <= pieces.len(),
            ps == seqs(pieces@),
            views(valid@) == cookie_pairs(ps.take(i as int)),
            views(invalid@) == bad_cookie_pairs(ps.take(i as int)),
        decreases pieces.len() - i,
    {
        proof {
            assert(ps.take(i + 1).drop_last() =~= ps.take(i as int));
            assert(ps.take(i + 1).last() == pieces@[i as int]@);
        }
        let t = trim_chars(pieces[i].as_slice());
        if t.len() > 0 {
            let item = string_of(t.as_slice());
            if has_char(t.as_slice(), '=') {
                let ghost before = views(valid@);
                valid.push(item);
                assert(views(valid@) =~= before.push(t@));
            } else {
                let ghost before = views(invalid@);
                invalid.push(item);
                assert(views(invalid@) =~= before.push(t@));
            }
        }
        i += 1;
    }
    assert(ps.take(pieces.len() as int) =~= ps);
    if invalid.len() == 0 {
        Ok(join_strings(&valid, "; "))
    } else if invalid.len() == 1 {
        Err(lit("invalid cookie pair provided"))
    } else {
        let mut m = lit("invalid cookie pairs provided: [");
        let j = join_strings(&invalid, ", ");
        append_str(&mut m, j.as_str());
        append_str(&mut m, "]");
        Err(m)
    }
}


/// The Hurl request line starts with the method the command line gives with
/// `-X`/`--request`, whatever else it gives; with none, with `POST` when it sends data,
/// else with `GET`; a space follows the method.
pub proof fn law_request_method(m: ArgsModel)
    ensures
        m.method matches Some(v) ==> curl_to_hurl(m).take(v.len() + 1int) == v + seq![' '],
        m.method is None && m.data is Some ==> curl_to_hurl(m).take(5) == "POST "@,
        m.method is None && m.data is None ==> curl_to_hurl(m).take(4) == "GET "@,
{
    reveal_strlit("POST");
    reveal_strlit("GET");
    reveal_strlit("POST ");
    reveal_strlit("GET ");
    let h = curl_to_hurl(m);
    let k = method_spec(m);
    let rest = url_spec(m) + lines_after(headers_spec(m))
        + (if option_lines(options_spec(m)).len() > 0 { "\n[Options]"@ + lines_after(option_lines(options_spec(m))) } else { Seq::empty() })
        + (match body_spec(m) { Some(b) => seq!['\n'] + b, None => Seq::empty() })
        + seq!['\n'];
    assert(h =~= k + seq![' '] + rest);
    assert(h.take(k.len() + 1int) =~= k + seq![' ']);
}


/// After the method and a space, the request line gives the URL: the one of `--url`, else
/// the one written alone, with `https://` in front when it does not start with `http`.
#[verifier::spinoff_prover]
pub proof fn law_request_url(m: ArgsModel)
    ensures
        ({
            let u = match m.url { Some(v) => v, None => m.url_param->0 };
            let full = if starts_with_seq(u, "http"@) { u } else { "https://"@ + u };
            curl_to_hurl(m).subrange(method_spec(m).len() + 1int, method_spec(m).len() + 1int + full.len()) == full
        }),
{
    let full = url_spec(m);
    let h = curl_to_hurl(m);
    let k = method_spec(m);
    let tail = lines_after(headers_spec(m))
        + (if option_lines(options_spec(m)).len() > 0 { "\n[Options]"@ + lines_after(option_lines(options_spec(m))) } else { Seq::empty() })
        + (match body_spec(m) { Some(b) => seq!['\n'] + b, None => Seq::empty() })
        + seq!['\n'];
    let head = k + seq![' '];
    assert(h =~= head + (full + tail));
    assert((head + (full + tail)).subrange(head.len() as int, (head.len() + full.len()) as int) =~= full);
}

/// The Hurl text ends with the body and a newline: `file, name;` for data `@name`, else
/// the data between triple backquotes; with no data it ends with what comes before.
pub proof fn law_request_body(m: ArgsModel)
    ensures
        m.data matches Some(d) ==> ({
            let b = if d.len() > 0 && d[0] == '@' { "file, "@ + d.skip(1) + ";"@ } else { "```"@ + d + "```"@ };
            let h = curl_to_hurl(m);
            h.len() >= b.len() + 2 && h.subrange(h.len() - b.len() - 2, h.len() as int) == seq!['\n'] + b + seq!['\n']
        }),
        curl_to_hurl(m).len() > 0 && curl_to_hurl(m).last() == '\n',
{
    reveal_strlit("@");
    let h = curl_to_hurl(m);
    let front = method_spec(m) + seq![' '] + url_spec(m) + lines_after(headers_spec(m))
        + (if option_lines(options_spec(m)).len() > 0 { "\n[Options]"@ + lines_after(option_lines(options_spec(m))) } else { Seq::empty() });
    if m.data is Some {
        let d = m.data->0;
        let b = if d.len() > 0 && d[0] == '@' { "file, "@ + d.skip(1) + ";"@ } else { "```"@ + d + "```"@ };
        assert(starts_with_seq(d, "@"@) <==> (d.len() > 0 && d[0] == '@')) by {
            if d.len() > 0 {
                assert(d.subrange(0, 1)[0] == d[0]);
                if d[0] == '@' {
                    assert(d.subrange(0, 1) =~= "@"@);
                }
            }
        }
        assert(body_spec(m) == Some(b));
        assert(h =~= front + (seq!['\n'] + b) + seq!['\n']);
        assert(h.subrange(h.len() - b.len() - 2, h.len() as int) =~= seq!['\n'] + b + seq!['\n']);
    } else {
        assert(h =~= front + Seq::<char>::empty() + seq!['\n']);
    }
}

/// Data that is not a file and no header starting with `Content-Type` add a last header
/// `Content-Type: application/x-www-form-urlencoded`; otherwise the headers are those
/// given, in order.
pub proof fn law_form_content_type(m: ArgsModel)
    ensures
        (m.data matches Some(d) && !(d.len() > 0 && d[0] == '@')
            && !exists|i: int| 0 <= i < m.headers.len() && #[trigger] m.headers[i].len() >= 12
                && m.headers[i].take(12) == "Content-Type"@)
            ==> headers_spec(m) == m.headers.push("Content-Type: application/x-www-form-urlencoded"@),
        (m.data is None || exists|i: int| 0 <= i < m.headers.len() && #[trigger] m.headers[i].len() >= 12
                && m.headers[i].take(12) == "Content-Type"@)
            ==> headers_spec(m) == m.headers,
{
    reveal_strlit("@");
    reveal_strlit("Content-Type");
    assert forall|i: int| 0 <= i < m.headers.len() implies (starts_with_seq(#[trigger] m.headers[i], "Content-Type"@)
        <==> (m.headers[i].len() >= 12 && m.headers[i].take(12) == "Content-Type"@)) by {
        if m.headers[i].len() >= 12 {
            assert(m.headers[i].subrange(0, 12) =~= m.headers[i].take(12));
        }
    }
    if m.data is Some {
        let d = m.data->0;
        if d.len() > 0 {
            assert(d.subrange(0, 1)[0] == d[0]);
            if d[0] == '@' {
                assert(d.subrange(0, 1) =~= "@"@);
            }
        }
    }
}


/// The `[Options]` lines, in this order: `compressed: true`, `location: true` and
/// `insecure: true` for the flags given, then `max-redirs: n` and `retry: n` for the
/// numbers given.
#[verifier::spinoff_prover]
pub proof fn law_option_lines(m: ArgsModel)
    ensures
        option_lines(options_spec(m)) ==
            (if m.compressed { seq!["compressed: true"@] } else { Seq::<Seq<char>>::empty() })
            + (if m.location { seq!["location: true"@] } else { Seq::<Seq<char>>::empty() })
            + (if m.insecure { seq!["insecure: true"@] } else { Seq::<Seq<char>>::empty() })
            + (match m.max_redirects { Some(n) => seq!["max-redirs: "@ + int_decimal(n as int)], None => Seq::<Seq<char>>::empty() })
            + (match m.retry { Some(n) => seq!["retry: "@ + int_decimal(n as int)], None => Seq::<Seq<char>>::empty() }),
{
    reveal_strlit("compressed");
    reveal_strlit("location");
    reveal_strlit("insecure");
    reveal_strlit("max-redirs");
    reveal_strlit("retry");
    reveal_strlit("true");
    reveal_strlit("compressed: true");
    reveal_strlit("location: true");
    reveal_strlit("insecure: true");
    reveal_strlit("max-redirs: ");
    reveal_strlit("retry: ");
    assert("compressed"@ + seq![':', ' '] + "true"@ =~= "compressed: true"@);
    assert("location"@ + seq![':', ' '] + "true"@ =~= "location: true"@);
    assert("insecure"@ + seq![':', ' '] + "true"@ =~= "insecure: true"@);
    let os = options_spec(m);
    let expected = (if m.compressed { seq!["compressed: true"@] } else { Seq::<Seq<char>>::empty() })
        + (if m.location { seq!["location: true"@] } else { Seq::<Seq<char>>::empty() })
        + (if m.insecure { seq!["insecure: true"@] } else { Seq::<Seq<char>>::empty() })
        + (match m.max_redirects { Some(n) => seq!["max-redirs: "@ + int_decimal(n as int)], None => Seq::<Seq<char>>::empty() })
        + (match m.retry { Some(n) => seq!["retry: "@ + int_decimal(n as int)], None => Seq::<Seq<char>>::empty() });
    match m.max_redirects {
        Some(n) => { assert("max-redirs"@ + seq![':', ' '] + int_decimal(n as int) =~= "max-redirs: "@ + int_decimal(n as int)); },
        None => {},
    }
    match m.retry {
        Some(n) => { assert("retry"@ + seq![':', ' '] + int_decimal(n as int) =~= "retry: "@ + int_decimal(n as int)); },
        None => {},
    }
    assert(option_lines(os).len() == expected.len());
    assert forall|i: int| 0 <= i < expected.len() implies option_lines(os)[i] == #[trigger] expected[i] by {
        assert(option_lines(os)[i] == os[i].0 + seq![':', ' '] + os[i].1);
    }
    assert(option_lines(os) =~= expected);
}


/// What each option sets: `-X`/`--request` the method, `-d`/`--data` the data, `--url`
/// the URL, `-H`/`--header` one more header after the others (when it is well formed),
/// and `--compressed`, `-L`/`--location` and `-k`/`--insecure` their flags; nothing else
/// changes.
pub proof fn law_curl_options(a: ArgsModel, v: Seq<char>)
    ensures
        long_option("request"@) == Some(CurlOpt::Method) && short_option('X') == Some(CurlOpt::Method),
        long_option("data"@) == Some(CurlOpt::Data) && short_option('d') == Some(CurlOpt::Data),
        long_option("header"@) == Some(CurlOpt::Header) && short_option('H') == Some(CurlOpt::Header),
        long_option("url"@) == Some(CurlOpt::Url),
        long_option("compressed"@) == Some(CurlOpt::Compressed),
        long_option("location"@) == Some(CurlOpt::Location) && short_option('L') == Some(CurlOpt::Location),
        long_option("insecure"@) == Some(CurlOpt::Insecure) && short_option('k') == Some(CurlOpt::Insecure),
        a.method is None ==> set_value(a, CurlOpt::Method, v) == Ok::<ArgsModel, Seq<char>>(ArgsModel { method: Some(v), ..a }),
        a.data is None ==> set_value(a, CurlOpt::Data, v) == Ok::<ArgsModel, Seq<char>>(ArgsModel { data: Some(v), ..a }),
        a.url is None ==> set_value(a, CurlOpt::Url, v) == Ok::<ArgsModel, Seq<char>>(ArgsModel { url: Some(v), ..a }),
        header_ok(v) ==> set_value(a, CurlOpt::Header, v) == Ok::<ArgsModel, Seq<char>>(ArgsModel { headers: a.headers.push(v), ..a }),
        !a.compressed ==> set_flag(a, CurlOpt::Compressed) == Ok::<ArgsModel, Seq<char>>(ArgsModel { compressed: true, ..a }),
        !a.location ==> set_flag(a, CurlOpt::Location) == Ok::<ArgsModel, Seq<char>>(ArgsModel { location: true, ..a }),
        !a.insecure ==> set_flag(a, CurlOpt::Insecure) == Ok::<ArgsModel, Seq<char>>(ArgsModel { insecure: true, ..a }),
{
    reveal_strlit("compressed");
    reveal_strlit("location");
    reveal_strlit("insecure");
    reveal_strlit("header");
    reveal_strlit("data");
    reveal_strlit("request");
    reveal_strlit("max-redirs");
    reveal_strlit("retry");
    reveal_strlit("url");
    assert("compressed"@ != "location"@ && "compressed"@ != "insecure"@ && "compressed"@ != "header"@ && "compressed"@ != "data"@) by {
        assert("compressed"@.len() != "location"@.len() && "compressed"@.len() != "insecure"@.len());
        assert("compressed"@.len() != "header"@.len() && "compressed"@.len() != "data"@.len());
    }
    assert("location"@[0] != "insecure"@[0] && "location"@.len() != "header"@.len() && "location"@.len() != "data"@.len());
    assert("insecure"@.len() != "header"@.len() && "insecure"@.len() != "data"@.len());
    assert("header"@.len() != "data"@.len());
    assert("request"@.len() != "compressed"@.len() && "request"@.len() != "location"@.len() && "request"@.len() != "insecure"@.len()
        && "request"@.len() != "header"@.len() && "request"@.len() != "data"@.len());
    assert("url"@.len() != "compressed"@.len() && "url"@.len() != "location"@.len() && "url"@.len() != "insecure"@.len()
        && "url"@.len() != "header"@.len() && "url"@.len() != "data"@.len() && "url"@.len() != "request"@.len()
        && "url"@.len() != "max-redirs"@.len() && "url"@.len() != "retry"@.len());
}

} // verus!
