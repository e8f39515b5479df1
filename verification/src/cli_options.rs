use vstd::prelude::*;


use crate::http::client::Redirect;
use crate::http::cookie::{
    cookie_views, expires_field, flag_word, law_netscape_round_trip, netscape_cookie, netscape_line, opt_cookie_view,
    Cookie, CookieView,
};
use crate::text::{
    all_digits, append_str, digits_value, line_pieces, lit, push_char, regex_split, str_eq, str_starts_with,
    lemma_int_decimal_no_char, lemma_split_append_plain, lemma_split_on_len, no_char, occurs_at, split_on,
    starts_with_seq, views,
};

verus! {

/// An error of the command line options, with its message.
#[derive(Clone, Debug, PartialEq, Eq)]
pub struct Error {
    pub message: String,
}

/// The name of the file to save the cookies of a session in: there must be a single
/// session. The caller makes a path of it.
pub fn cookies_output_file(filename: String, n: usize) -> (r: Result<String, Error>)
    ensures
        r is Ok <==> n <= 1,
        r matches Ok(p) ==> p@ == filename@,
        r matches Err(e) ==> e.message@ == "Only save cookies for a unique session"@,
{
    if n > 1 {
        Err(Error { message: lit("Only save cookies for a unique session") })
    } else {
        Ok(filename)
    }
}

/// Colour is used when asked for, not when refused, else when the output is a terminal.
pub fn output_color(color_present: bool, no_color_present: bool, stdout: bool) -> (b: bool)
    ensures
        b == (color_present || (!no_color_present && stdout)),
{
    if color_present {
        true
    } else if no_color_present {
        false
    } else {
        stdout
    }
}

/// What std `usize::from_str` accepts: an optional `+` then at least one digit, with a
/// value that fits; the value.
pub open spec fn usize_numeral(s: Seq<char>) -> Option<nat> {
    let d = if s.len() > 0 && s[0] == '+' { s.drop_first() } else { s };
    if d.len() > 0 && all_digits(d) && digits_value(d) <= usize::MAX {
        Some(digits_value(d))
    } else {
        None
    }
}

/// std `str::parse::<usize>`: a value when the text is an optional `+` followed by
/// digits whose value fits in `usize`, else nothing.
#[verifier::external_body]
fn parse_usize(s: &str) -> (r: Option<usize>)
    ensures
        match r {
            Some(n) => usize_numeral(s@) == Some(n as nat),
            None => usize_numeral(s@) is None,
        },
{
    s.parse::<usize>().ok()
}

/// The redirect policy: none unless redirections are followed; then unlimited for `-1`,
/// else limited to the given number.
pub fn redirect(redirect_present: bool, max_redirect: &str) -> (r: Result<Redirect, Error>)
    ensures
        !redirect_present ==> r == Ok::<Redirect, Error>(Redirect::NoRedirect),
        redirect_present && max_redirect@ == "-1"@ ==> r == Ok::<Redirect, Error>(Redirect::Unlimited),
        redirect_present && max_redirect@ != "-1"@ ==> match usize_numeral(max_redirect@) {
            Some(n) => r matches Ok(Redirect::Limited(m)) && m == n,
            None => r matches Err(e) && e.message@ == "Invalid value for option --max-redirs"@,
        },
{
    if redirect_present {
        if str_eq(max_redirect, "-1") {
            Ok(Redirect::Unlimited)
        } else if let Some(n) = parse_usize(max_redirect) {
            Ok(Redirect::Limited(n))
        } else {
            Err(Error { message: lit("Invalid value for option --max-redirs") })
        }
    } else {
        Ok(Redirect::NoRedirect)
    }
}

/// Whether `reqwest::Proxy::http` accepts a proxy URL.
pub uninterp spec fn proxy_url_accepted(url: Seq<char>) -> bool;

/// `reqwest::Proxy::http`: whether reqwest accepts the URL as an HTTP proxy.
#[verifier::external_body]
fn reqwest_accepts_proxy(url: &str) -> (b: bool)
    ensures
        b == proxy_url_accepted(url@),
{
    reqwest::Proxy::http(url).is_ok()
}

/// A proxy URL with a scheme: as given when it starts with `http`, else after `http://`.
pub open spec fn proxy_url(url: Seq<char>) -> Seq<char> {
    if starts_with_seq(url, "http"@) { url } else { "http://"@ + url }
}

/// The proxy URL with a scheme, when reqwest accepts it.
pub fn validate_proxy(url: String) -> (r: Result<String, Error>)
    ensures
        match r {
            Ok(u) => u@ == proxy_url(url@) && proxy_url_accepted(proxy_url(url@)),
            Err(e) => !proxy_url_accepted(proxy_url(url@))
                && e.message@ == "Invalid proxy url <"@ + proxy_url(url@) + ">"@,
        },
{
    let url = if str_starts_with(url.as_str(), "http") {
        url
    } else {
        let mut u = lit("http://");
        append_str(&mut u, url.as_str());
        u
    };
    if reqwest_accepts_proxy(url.as_str()) {
        Ok(url)
    } else {
        let mut message = lit("Invalid proxy url <");
        append_str(&mut message, url.as_str());
        append_str(&mut message, ">");
        Err(Error { message })
    }
}

/// The proxy chosen from the option, else from the environment: an empty value means no
/// proxy; a value is validated.
pub open spec fn proxy_choice(option_value: Option<Seq<char>>, env_value: Option<Seq<char>>) -> Option<Seq<char>> {
    match option_value {
        Some(u) => if u.len() == 0 { None } else { Some(u) },
        None => match env_value {
            Some(u) => if u.len() == 0 { None } else { Some(u) },
            None => None,
        },
    }
}

/// The proxy to use.
pub fn proxy(option_value: Option<&str>, env_value: Option<String>) -> (r: Result<Option<String>, Error>)
    ensures
        match proxy_choice(
            match option_value { Some(u) => Some(u@), None => None },
            match env_value { Some(u) => Some(u@), None => None },
        ) {
            None => r == Ok::<Option<String>, Error>(None),
            Some(u) => match r {
                Ok(Some(v)) => v@ == proxy_url(u) && proxy_url_accepted(proxy_url(u)),
                Ok(None) => false,
                Err(e) => !proxy_url_accepted(proxy_url(u))
                    && e.message@ == "Invalid proxy url <"@ + proxy_url(u) + ">"@,
            },
        },
{
    match option_value {
        Some(url) => if url.is_empty() {
            Ok(None)
        } else {
            match validate_proxy(lit(url)) {
                Ok(u) => Ok(Some(u)),
                Err(e) => Err(e),
            }
        },
        None => match env_value {
            Some(url) => if url.as_str().is_empty() {
                Ok(None)
            } else {
                match validate_proxy(url) {
                    Ok(u) => Ok(Some(u)),
                    Err(e) => Err(e),
                }
            },
            None => Ok(None),
        },
    }
}


/// A line of a cookie file that holds no cookie: a comment, starting with `#`, or an
/// empty line.
pub open spec fn skipped_line(l: Seq<char>) -> bool {
    l.len() == 0 || l[0] == '#'
}

/// The cookies of the lines of a Netscape cookie file, in order, or the first line that
/// is neither skipped nor a cookie.
pub open spec fn file_cookies(lines: Seq<Seq<char>>) -> Result<Seq<CookieView>, Seq<char>>
    decreases lines.len(),
{
    if lines.len() == 0 {
        Ok(Seq::empty())
    } else {
        match file_cookies(lines.drop_last()) {
            Err(l) => Err(l),
            Ok(cs) => if skipped_line(lines.last()) {
                Ok(cs)
            } else {
                match netscape_cookie(lines.last()) {
                    Some(c) => Ok(cs.push(c)),
                    None => Err(lines.last()),
                }
            },
        }
    }
}

/// The message for a line of a cookie file that is not a cookie.
pub open spec fn bad_cookie_message(l: Seq<char>) -> Seq<char> {
    "Cookie "@ + l + " can not be parsed"@
}

/// An error in the first lines of a cookie file is the error of the file.
proof fn lemma_file_cookies_error(lines: Seq<Seq<char>>, n: int)
    requires
        0 <= n <= lines.len(),
        file_cookies(lines.take(n)) is Err,
    ensures
        file_cookies(lines) == file_cookies(lines.take(n)),
    decreases lines.len(),
{
    if n == lines.len() {
        assert(lines.take(n) =~= lines);
    } else {
        assert(lines.drop_last().take(n) =~= lines.take(n));
        lemma_file_cookies_error(lines.drop_last(), n);
    }
}

/// The cookies of the lines of a cookie file.
pub fn cookies_from_lines(lines: &Vec<String>) -> (r: Result<Vec<Cookie>, Error>)
    ensures
        match file_cookies(views(lines@)) {
            Ok(cs) => r matches Ok(v) && cookie_views(v@) == cs,
            Err(l) => r matches Err(e) && e.message@ == bad_cookie_message(l),
        },
{
    let mut cookies: Vec<Cookie> = Vec::new();
    let mut i: usize = 0;
    assert(views(lines@).take(0) =~= Seq::<Seq<char>>::empty());
    assert(cookie_views(cookies@) =~= Seq::<CookieView>::empty());
    while i < lines.len()
        invariant
            i <= lines.len(),
            file_cookies(views(lines@).take(i as int)) == Ok::<Seq<CookieView>, Seq<char>>(cookie_views(cookies@)),
        decreases lines.len() - i,
    {
        let line = lines[i].as_str();
        let ghost prefix = views(lines@).take(i as int);
        proof {
            assert(views(lines@).take(i + 1).drop_last() =~= prefix);
            assert(views(lines@).take(i + 1).last() == line@);
            reveal_strlit("#");
            if line@.len() > 0 {
                assert(line@.subrange(0, 1) =~= seq![line@[0]]);
                assert("#"@ =~= seq!['#']);
                if line@[0] == '#' {
                    assert(line@.subrange(0, 1) == "#"@);
                    assert(occurs_at(line@, "#"@, 0));
                }
                if starts_with_seq(line@, "#"@) {
                    assert(line@.subrange(0, 1)[0] == "#"@[0]);
                }
            }
        }
        if line.is_empty() || str_starts_with(line, "#") {
        } else {
            match Cookie::from_netscape(line) {
                Some(cookie) => {
                    let ghost before = cookie_views(cookies@);
                    let ghost c = cookie@;
                    cookies.push(cookie);
                    assert(cookie_views(cookies@) =~= before.push(c));
                },
                None => {
                    let mut message = lit("Cookie ");
                    append_str(&mut message, line);
                    append_str(&mut message, " can not be parsed");
                    proof {
                        lemma_file_cookies_error(views(lines@), i as int + 1);
                        reveal_strlit("Cookie ");
                        reveal_strlit(" can not be parsed");
                    }
                    return Err(Error { message });
                },
            }
        }
        i = i + 1;
    }
    assert(views(lines@).take(lines.len() as int) =~= views(lines@));
    Ok(cookies)
}


/// The cookies of the text of a Netscape cookie file, cut into lines at each `\n` and
/// `\r\n` by the regex crate.
pub fn cookies_from_text(content: &str) -> (r: Result<Vec<Cookie>, Error>)
    ensures
        match file_cookies(line_pieces(content@)) {
            Ok(cs) => r matches Ok(v) && cookie_views(v@) == cs,
            Err(l) => r matches Err(e) && e.message@ == bad_cookie_message(l),
        },
{
    match regex_split("\n|\r\n", content) {
        Some(lines) => cookies_from_lines(&lines),
        None => {
            assert(false);
            Ok(Vec::new())
        },
    }
}


/// The first lines of a cookie file written by the tool.
pub open spec fn cookie_file_header() -> Seq<Seq<char>> {
    seq!["# Netscape HTTP Cookie File"@, "# This file was generated by hurl"@, Seq::<char>::empty()]
}

/// The lines of a cookie file holding cookies: the header, then a Netscape line for each
/// cookie.
pub open spec fn cookie_file_lines(cs: Seq<CookieView>) -> Seq<Seq<char>> {
    cookie_file_header() + cs.map_values(|c: CookieView| netscape_line(c))
}

/// Lines as a text, each followed by a line break.
pub open spec fn lines_text(ls: Seq<Seq<char>>) -> Seq<char>
    decreases ls.len(),
{
    if ls.len() == 0 {
        Seq::empty()
    } else {
        lines_text(ls.drop_last()) + ls.last() + seq!['\n']
    }
}

/// The text of a cookie file holding the cookies of a jar.
pub fn cookie_file_text(cookies: &Vec<Cookie>) -> (s: String)
    ensures
        s@ == lines_text(cookie_file_lines(cookie_views(cookies@))),
{
    let ghost h = cookie_file_header();
    let mut s = lit("# Netscape HTTP Cookie File");
    push_char(&mut s, '\n');
    append_str(&mut s, "# This file was generated by hurl");
    push_char(&mut s, '\n');
    push_char(&mut s, '\n');
    proof {
        let h1 = seq![h[0]];
        let h2 = seq![h[0], h[1]];
        assert(lines_text(Seq::<Seq<char>>::empty()) == Seq::<char>::empty());
        assert(h1.drop_last() =~= Seq::<Seq<char>>::empty());
        assert(lines_text(h1) =~= h[0] + seq!['\n']);
        assert(h2.drop_last() =~= h1);
        assert(lines_text(h2) =~= h[0] + seq!['\n'] + h[1] + seq!['\n']);
        assert(h.drop_last() =~= h2);
        assert(lines_text(h) =~= s@);
    }
    let ghost lines = cookie_file_lines(cookie_views(cookies@));
    assert(lines.take(3) =~= h);
    let mut i: usize = 0;
    while i < cookies.len()
        invariant
            i <= cookies.len(),
            lines == cookie_file_lines(cookie_views(cookies@)),
            s@ == lines_text(lines.take(3 + i)),
        decreases cookies.len() - i,
    {
        proof {
            assert(lines.take(3 + i + 1).drop_last() =~= lines.take(3 + i));
            assert(lines.take(3 + i + 1).last() == netscape_line(cookies@[i as int]@));
        }
        let line = cookies[i].to_netscape();
        append_str(&mut s, line.as_str());
        push_char(&mut s, '\n');
        i += 1;
    }
    assert(lines.take(3 + cookies.len()) =~= lines);
    s
}


/// Lines without line breaks, written each followed by a line break, are split back into
/// those lines and an empty last piece.
proof fn lemma_split_lines(ls: Seq<Seq<char>>)
    requires
        forall|k: int| 0 <= k < ls.len() ==> no_char(#[trigger] ls[k], '\n'),
    ensures
        split_on(lines_text(ls), '\n') == ls.push(Seq::<char>::empty()),
    decreases ls.len(),
{
    if ls.len() == 0 {
        assert(lines_text(ls) =~= Seq::<char>::empty());
        assert(ls.push(Seq::<char>::empty()) =~= seq![Seq::<char>::empty()]);
    } else {
        let p = ls.drop_last();
        assert forall|k: int| 0 <= k < p.len() implies no_char(#[trigger] p[k], '\n') by {
            assert(p[k] == ls[k]);
        }
        lemma_split_lines(p);
        let x = lines_text(p);
        let l = ls.last();
        assert(no_char(l, '\n')) by {
            assert(l == ls[ls.len() - 1]);
        }
        lemma_split_append_plain(x, l, '\n');
        lemma_split_on_len(x, '\n');
        let t = lines_text(ls);
        assert(t =~= (x + l) + seq!['\n']);
        assert(t.drop_last() =~= x + l);
        assert(split_on(x + l, '\n') =~= p.push(l));
        assert(split_on(t, '\n') =~= p.push(l).push(Seq::<char>::empty()));
        assert(p.push(l) =~= ls);
    }
}

/// A cookie that a cookie file keeps as it is: its texts hold no tab and no line break,
/// its value no carriage return, and its domain does not start with `#`.
pub open spec fn storable(c: CookieView) -> bool {
    &&& no_char(c.domain, '\t') && no_char(c.path, '\t') && no_char(c.name, '\t') && no_char(c.value, '\t')
    &&& no_char(c.domain, '\n') && no_char(c.path, '\n') && no_char(c.name, '\n') && no_char(c.value, '\n')
    &&& no_char(c.value, '\r')
    &&& (c.domain.len() == 0 || c.domain[0] != '#')
}

/// The Netscape line of a storable cookie has no line break, does not end with a
/// carriage return, and is not skipped.
proof fn lemma_storable_line(c: CookieView)
    requires
        storable(c),
    ensures
        no_char(netscape_line(c), '\n'),
        netscape_line(c).last() != '\r',
        !skipped_line(netscape_line(c)),
{
    let l = netscape_line(c);
    let w1 = flag_word(c.subdomains);
    let w2 = flag_word(c.secure);
    let e = expires_field(c.expires);
    match c.expires {
        Some(x) => lemma_int_decimal_no_char(x as int, '\n'),
        None => {},
    }
    assert(l =~= c.domain + seq!['\t'] + w1 + seq!['\t'] + c.path + seq!['\t'] + w2 + seq!['\t'] + e + seq!['\t'] + c.name + seq!['\t'] + c.value);
    assert forall|k: int| 0 <= k < l.len() implies l[k] != '\n' by {
        let a = c.domain + seq!['\t'] + w1 + seq!['\t'] + c.path + seq!['\t'] + w2 + seq!['\t'] + e + seq!['\t'] + c.name + seq!['\t'];
        if k >= a.len() {
            assert(l[k] == c.value[k - a.len()]);
        }
    }
    if c.value.len() > 0 {
        assert(l.last() == c.value.last());
    } else {
        assert(l.last() == '\t');
    }
    if c.domain.len() > 0 {
        assert(l[0] == c.domain[0]);
    } else {
        assert(l[0] == '\t');
    }
}

/// The cookies as a file keeps them, without their expiry.
pub open spec fn kept_cookies(cs: Seq<CookieView>) -> Seq<CookieView> {
    cs.map_values(|c: CookieView| CookieView { expires: None, ..c })
}

proof fn lemma_file_cookies_of_lines(cs: Seq<CookieView>)
    requires
        forall|k: int| 0 <= k < cs.len() ==> storable(#[trigger] cs[k]),
    ensures
        file_cookies(cookie_file_lines(cs)) == Ok::<Seq<CookieView>, Seq<char>>(kept_cookies(cs)),
    decreases cs.len(),
{
    let h = cookie_file_header();
    if cs.len() == 0 {
        reveal_strlit("# Netscape HTTP Cookie File");
        reveal_strlit("# This file was generated by hurl");
        assert(cookie_file_lines(cs) =~= h);
        assert(h.drop_last().drop_last().drop_last() =~= Seq::<Seq<char>>::empty());
        assert(skipped_line(h[0]) && skipped_line(h[1]) && skipped_line(h[2]));
        let h1 = h.drop_last().drop_last();
        assert(h1 =~= seq![h[0]]);
        assert(h1.drop_last() =~= Seq::<Seq<char>>::empty());
        assert(file_cookies(Seq::<Seq<char>>::empty()) == Ok::<Seq<CookieView>, Seq<char>>(Seq::empty()));
        assert(file_cookies(h1) == Ok::<Seq<CookieView>, Seq<char>>(Seq::empty()));
        assert(file_cookies(h.drop_last()) == Ok::<Seq<CookieView>, Seq<char>>(Seq::empty()));
        assert(kept_cookies(cs) =~= Seq::<CookieView>::empty());
    } else {
        let p = cs.drop_last();
        let c = cs.last();
        assert forall|k: int| 0 <= k < p.len() implies storable(#[trigger] p[k]) by {
            assert(p[k] == cs[k]);
        }
        lemma_file_cookies_of_lines(p);
        assert(storable(c)) by {
            assert(c == cs[cs.len() - 1]);
        }
        lemma_storable_line(c);
        law_netscape_round_trip(c);
        assert(cookie_file_lines(cs).drop_last() =~= cookie_file_lines(p));
        assert(cookie_file_lines(cs).last() == netscape_line(c));
        assert(kept_cookies(cs) =~= kept_cookies(p).push(CookieView { expires: None, ..c }));
    }
}

/// The cookies of a jar written as a cookie file are read back from its text, without
/// their expiry, when no text of theirs holds a tab or a line break, no value a carriage
/// return, and no domain starts with `#`.
pub proof fn law_cookie_file_round_trip(cs: Seq<CookieView>)
    requires
        forall|k: int| 0 <= k < cs.len() ==> storable(#[trigger] cs[k]),
    ensures
        file_cookies(line_pieces(lines_text(cookie_file_lines(cs)))) == Ok::<Seq<CookieView>, Seq<char>>(kept_cookies(cs)),
{
    let ls = cookie_file_lines(cs);
    let h = cookie_file_header();
    reveal_strlit("# Netscape HTTP Cookie File");
    reveal_strlit("# This file was generated by hurl");
    assert forall|k: int| 0 <= k < ls.len() implies no_char(#[trigger] ls[k], '\n') && (ls[k].len() == 0 || ls[k].last() != '\r') by {
        if k >= 3 {
            let c = cs[k - 3];
            assert(storable(c));
            lemma_storable_line(c);
            assert(ls[k] == netscape_line(c));
        } else {
            assert(ls[k] == h[k]);
        }
    }
    lemma_split_lines(ls);
    let ps = split_on(lines_text(ls), '\n');
    assert(line_pieces(lines_text(ls)) =~= ls.push(Seq::<char>::empty())) by {
        assert forall|i: int| 0 <= i < ps.len() implies #[trigger] line_pieces(lines_text(ls))[i] == ls.push(Seq::<char>::empty())[i] by {
            if i + 1 < ps.len() {
                assert(ps[i] == ls[i]);
            }
        }
    }
    lemma_file_cookies_of_lines(cs);
    assert(ls.push(Seq::<char>::empty()).drop_last() =~= ls);
    assert(skipped_line(Seq::<char>::empty()));
}

} // verus!
