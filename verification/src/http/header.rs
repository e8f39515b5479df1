use vstd::prelude::*;

use crate::text::{append_str, lit, push_char, str_eq};

verus! {

/// An HTTP header: a name and a value.
#[derive(Clone, Debug, PartialEq, Eq)]
pub struct Header {
    pub name: String,
    pub value: String,
}

/// A cookie line as stored in a Netscape cookie file, field by field.
#[derive(Clone, Debug, PartialEq, Eq)]
pub struct Cookie {
    pub domain: String,
    pub include_subdomain: String,
    pub path: String,
    pub https: String,
    pub expires: String,
    pub name: String,
    pub value: String,
}

/// The values of the headers named `name` (compared exactly), in order.
pub open spec fn header_values(headers: Seq<Header>, name: Seq<char>) -> Seq<Seq<char>>
    decreases headers.len(),
{
    if headers.len() == 0 {
        Seq::empty()
    } else {
        let r = header_values(headers.drop_last(), name);
        if headers.last().name@ == name {
            r.push(headers.last().value@)
        } else {
            r
        }
    }
}

/// The views of a vector of strings.
pub open spec fn string_views(v: Seq<String>) -> Seq<Seq<char>> {
    v.map_values(|x: String| x@)
}

/// The values of the headers whose name is `expected_name`, in order.
pub fn get_header_values(headers: Vec<Header>, expected_name: String) -> (values: Vec<String>)
    ensures
        string_views(values@) == header_values(headers@, expected_name@),
{
    let mut values: Vec<String> = Vec::new();
    let mut i: usize = 0;
    while i < headers.len()
        invariant
            i <= headers.len(),
            string_views(values@) == header_values(headers@.take(i as int), expected_name@),
        decreases headers.len() - i,
    {
        assert(headers@.take(i + 1).drop_last() =~= headers@.take(i as int));
        if str_eq(headers[i].name.as_str(), expected_name.as_str()) {
            let v = headers[i].value.clone();
            values.push(v);
        }
        i += 1;
        assert(string_views(values@) =~= header_values(headers@.take(i as int), expected_name@));
    }
    assert(headers@.take(headers.len() as int) =~= headers@);
    values
}

/// `name: value`.
pub open spec fn header_text(h: Header) -> Seq<char> {
    h.name@ + seq![':', ' '] + h.value@
}

/// The seven fields of a cookie line, separated by tabs.
pub open spec fn cookie_line(c: Cookie) -> Seq<char> {
    c.domain@ + seq!['\t'] + c.include_subdomain@ + seq!['\t'] + c.path@ + seq!['\t'] + c.https@
        + seq!['\t'] + c.expires@ + seq!['\t'] + c.name@ + seq!['\t'] + c.value@
}

impl Header {
    /// The header as text: `name: value`.
    pub fn to_string(&self) -> (s: String)
        ensures
            s@ == header_text(*self),
    {
        let mut s = self.name.clone();
        append_str(&mut s, ": ");
        append_str(&mut s, self.value.as_str());
        proof {
            reveal_strlit(": ");
        }
        assert(s@ =~= header_text(*self));
        s
    }
}

impl Cookie {
    /// The cookie as a tab-separated line.
    pub fn to_string(&self) -> (s: String)
        ensures
            s@ == cookie_line(*self),
    {
        let mut s = self.domain.clone();
        push_char(&mut s, '\t');
        append_str(&mut s, self.include_subdomain.as_str());
        push_char(&mut s, '\t');
        append_str(&mut s, self.path.as_str());
        push_char(&mut s, '\t');
        append_str(&mut s, self.https.as_str());
        push_char(&mut s, '\t');
        append_str(&mut s, self.expires.as_str());
        push_char(&mut s, '\t');
        append_str(&mut s, self.name.as_str());
        push_char(&mut s, '\t');
        append_str(&mut s, self.value.as_str());
        assert(s@ =~= cookie_line(*self));
        s
    }
}

/// The value of the first header named `expected_name`.
pub fn get_header_value(headers: Vec<Header>, expected_name: &str) -> (r: Option<String>)
    ensures
        match r {
            Some(v) => header_values(headers@, expected_name@).len() > 0 && v@ == header_values(headers@, expected_name@)[0],
            None => header_values(headers@, expected_name@).len() == 0,
        },
{
    let mut i: usize = 0;
    while i < headers.len()
        invariant
            i <= headers.len(),
            header_values(headers@.take(i as int), expected_name@).len() == 0,
        decreases headers.len() - i,
    {
        proof {
            lemma_header_values_prefix(headers@, expected_name@, i + 1);
        }
        assert(headers@.take(i + 1).drop_last() =~= headers@.take(i as int));
        if str_eq(headers[i].name.as_str(), expected_name) {
            let v = headers[i].value.clone();
            assert(header_values(headers@.take(i + 1), expected_name@)[0] == v@);
            return Some(v);
        }
        i += 1;
    }
    assert(headers@.take(headers.len() as int) =~= headers@);
    None
}

/// The values of a prefix of the headers begin the values of all headers.
proof fn lemma_header_values_prefix(hs: Seq<Header>, name: Seq<char>, n: int)
    requires
        0 <= n <= hs.len(),
    ensures
        header_values(hs.take(n), name).len() <= header_values(hs, name).len(),
        forall|k: int| 0 <= k < header_values(hs.take(n), name).len()
            ==> #[trigger] header_values(hs.take(n), name)[k] == header_values(hs, name)[k],
    decreases hs.len() - n,
{
    if n < hs.len() {
        lemma_header_values_prefix(hs, name, n + 1);
        assert(hs.take(n + 1).drop_last() =~= hs.take(n));
        let a = header_values(hs.take(n), name);
        let b = header_values(hs.take(n + 1), name);
        assert forall|k: int| 0 <= k < a.len() implies #[trigger] a[k] == header_values(hs, name)[k] by {
            assert(a[k] == b[k]);
        }
    } else {
        assert(hs.take(n) =~= hs);
    }
}

} // verus!
