use vstd::prelude::*;

use crate::http::import::{checked_parse_url, parse_url, url_result, url_view, url_without_host, UrlView};
use crate::http::request::{param_parts, Param, Url};
use crate::runner::results::RunnerError;
use crate::text::{chars_of, seqs, split_chars, split_on, string_of};

verus! {

/// The URL without its query, and the parameters of the query: the text after the
/// first `?`, split on `&`, each read as `name=value`.
pub open spec fn url_parts_of(s: Seq<char>) -> (Seq<char>, Seq<(Seq<char>, Seq<char>)>) {
    if exists|i: int| 0 <= i < s.len() && s[i] == '?' {
        let i = choose|i: int| 0 <= i < s.len() && s[i] == '?' && forall|j: int| 0 <= j < i ==> s[j] != '?';
        (s.take(i), split_on(s.skip(i + 1), '&').map_values(|p: Seq<char>| param_parts(p)))
    } else {
        (s, Seq::empty())
    }
}

/// Splits a URL into the URL without its query and the query parameters.
pub fn split_url(url: String) -> (r: (String, Vec<Param>))
    ensures
        (r.0@, r.1@.map_values(|p: Param| (p.name@, p.value@))) == url_parts_of(url@),
{
    let chars = chars_of(url.as_str());
    let mut i: usize = 0;
    while i < chars.len()
        invariant
            i <= chars.len(),
            chars@ == url@,
            forall|j: int| 0 <= j < i ==> chars@[j] != '?',
        decreases chars.len() - i,
    {
        if chars[i] == '?' {
            let base = string_of(&chars.as_slice()[0..i]);
            let rest = &chars.as_slice()[i + 1..chars.len()];
            let parts = split_chars(rest, '&');
            let mut params: Vec<Param> = Vec::new();
            let mut k: usize = 0;
            while k < parts.len()
                invariant
                    k <= parts.len(),
                    params@.map_values(|p: Param| (p.name@, p.value@)) == seqs(parts@).take(k as int).map_values(|p: Seq<char>| param_parts(p)),
                decreases parts.len() - k,
            {
                let piece = string_of(parts[k].as_slice());
                let p = Param::parse(piece.as_str());
                let ghost before = params@;
                params.push(p);
                assert(seqs(parts@)[k as int] == parts@[k as int]@);
                assert(params@.map_values(|p: Param| (p.name@, p.value@)) =~= before.map_values(|p: Param| (p.name@, p.value@)).push((p.name@, p.value@)));
                k += 1;
                assert(params@.map_values(|p: Param| (p.name@, p.value@)) =~= seqs(parts@).take(k as int).map_values(|p: Seq<char>| param_parts(p)));
            }
            assert(seqs(parts@).take(parts.len() as int) =~= seqs(parts@));
            proof {
                let q = choose|q: int| 0 <= q < url@.len() && url@[q] == '?' && forall|j: int| 0 <= j < q ==> url@[j] != '?';
                assert(q == i) by {
                    if q < i {
                        assert(chars@[q] != '?');
                    }
                    if q > i {
                        assert(url@[i as int] == '?');
                    }
                }
                assert(base@ =~= url@.take(i as int));
                assert(rest@ =~= url@.skip(i + 1));
            }
            return (base, params);
        }
        i += 1;
    }
    let params: Vec<Param> = Vec::new();
    assert(params@.map_values(|p: Param| (p.name@, p.value@)) =~= Seq::<(Seq<char>, Seq<char>)>::empty());
    (url, params)
}

/// Reads a URL with the url crate; an invalid URL is an error naming it.
pub fn eval_url(s: String) -> (r: Result<Url, RunnerError>)
    requires
        !url_without_host(s@),
    ensures
        match url_result(s@) {
            Ok(u) => r matches Ok(v) && url_view(v) == u,
            Err(_) => r matches Err(RunnerError::InvalidURL(t)) && t@ == s@,
        },
{
    match parse_url(s.clone()) {
        Ok(u) => Ok(u),
        Err(_) => Err(RunnerError::InvalidURL(s)),
    }
}

/// Reads a URL, or says that the url crate reads it without a host.
pub fn checked_eval_url(s: String) -> (r: Option<Result<Url, RunnerError>>)
    ensures
        r is None <==> url_without_host(s@),
        r matches Some(res) ==> match url_result(s@) {
            Ok(u) => res matches Ok(v) && url_view(v) == u,
            Err(_) => res matches Err(RunnerError::InvalidURL(t)) && t@ == s@,
        },
{
    match checked_parse_url(s.clone()) {
        None => None,
        Some(_) => Some(eval_url(s)),
    }
}

} // verus!
