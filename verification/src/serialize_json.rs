use vstd::prelude::*;

use crate::text::{append_str, chars_of, control, is_control, join, join_strings, lit, nat_hex, push_char, u64_to_hex, views};

verus! {

/// A JSON value to print.
#[derive(Debug, PartialEq, Eq)]
pub enum JValue {
    Number(String),
    String(String),
    Boolean(bool),
    List(Vec<JValue>),
    Object(Vec<(String, JValue)>),
    Null,
}

/// Zeros in front of a text, up to four characters.
pub open spec fn pad4(s: Seq<char>) -> Seq<char> {
    if s.len() >= 4 { s } else { Seq::new((4 - s.len()) as nat, |i: int| '0') + s }
}

/// How a character is written inside a JSON string.
pub open spec fn char_text(c: char) -> Seq<char> {
    if c == '"' {
        seq!['\\', '"']
    } else if c == '\\' {
        seq!['\\', '\\']
    } else if c == '\x08' {
        seq!['\\', 'b']
    } else if c == '\x0c' {
        seq!['\\', 'f']
    } else if c == '\n' {
        seq!['\\', 'n']
    } else if c == '\r' {
        seq!['\\', 'r']
    } else if c == '\t' {
        seq!['\\', 't']
    } else if control(c) {
        seq!['\\', 'u'] + pad4(nat_hex(c as nat))
    } else {
        seq![c]
    }
}

/// How a text is written inside a JSON string.
pub open spec fn string_text(s: Seq<char>) -> Seq<char>
    decreases s.len(),
{
    if s.len() == 0 {
        Seq::empty()
    } else {
        string_text(s.drop_last()) + char_text(s.last())
    }
}

/// A measure of the nesting of a value.
pub open spec fn jvalue_size(v: JValue) -> nat
    decreases v,
{
    match v {
        JValue::List(elems) => 1 + elems_size(elems@),
        JValue::Object(kvs) => 1 + pairs_size(kvs@),
        _ => 1,
    }
}

/// The sum of the measures of values.
pub open spec fn elems_size(s: Seq<JValue>) -> nat
    decreases s,
{
    if s.len() == 0 {
        0
    } else {
        jvalue_size(s[0]) + elems_size(s.drop_first())
    }
}

/// The sum of the measures of the values of members.
pub open spec fn pairs_size(s: Seq<(String, JValue)>) -> nat
    decreases s,
{
    if s.len() == 0 {
        0
    } else {
        jvalue_size(s[0].1) + pairs_size(s.drop_first())
    }
}

proof fn lemma_elems_size(s: Seq<JValue>, i: int)
    requires
        0 <= i < s.len(),
    ensures
        jvalue_size(s[i]) <= elems_size(s),
    decreases s.len(),
{
    if i > 0 {
        lemma_elems_size(s.drop_first(), i - 1);
    }
}

proof fn lemma_pairs_size(s: Seq<(String, JValue)>, i: int)
    requires
        0 <= i < s.len(),
    ensures
        jvalue_size(s[i].1) <= pairs_size(s),
    decreases s.len(),
{
    if i > 0 {
        lemma_pairs_size(s.drop_first(), i - 1);
    }
}

/// The JSON text of a value.
pub open spec fn jvalue_text(v: JValue) -> Seq<char>
    decreases v,
{
    match v {
        JValue::Null => "null"@,
        JValue::Number(n) => n@,
        JValue::String(s) => seq!['"'] + string_text(s@) + seq!['"'],
        JValue::Boolean(b) => if b { "true"@ } else { "false"@ },
        JValue::List(elems) => seq!['['] + join(elems_text(elems@), seq![',']) + seq![']'],
        JValue::Object(kvs) => seq!['{'] + join(pairs_text(kvs@), seq![',']) + seq!['}'],
    }
}

/// The JSON texts of the values of a list.
pub open spec fn elems_text(s: Seq<JValue>) -> Seq<Seq<char>>
    decreases s,
{
    if s.len() == 0 {
        Seq::empty()
    } else {
        seq![jvalue_text(s[0])] + elems_text(s.drop_first())
    }
}

/// The JSON text of a member of an object: `"key":value`, the key escaped as the
/// contents of a string are.
pub open spec fn pair_text(key: Seq<char>, value: Seq<char>) -> Seq<char> {
    seq!['"'] + string_text(key) + seq!['"', ':'] + value
}

/// The JSON texts of the members of an object.
pub open spec fn pairs_text(s: Seq<(String, JValue)>) -> Seq<Seq<char>>
    decreases s,
{
    if s.len() == 0 {
        Seq::empty()
    } else {
        seq![pair_text(s[0].0@, jvalue_text(s[0].1))] + pairs_text(s.drop_first())
    }
}

/// How a character is written inside a JSON string.
pub fn format_char(c: char) -> (s: String)
    ensures
        s@ == char_text(c),
{
    let mut s = String::new();
    if c == '"' {
        push_char(&mut s, '\\');
        push_char(&mut s, '"');
    } else if c == '\\' {
        push_char(&mut s, '\\');
        push_char(&mut s, '\\');
    } else if c == '\x08' {
        push_char(&mut s, '\\');
        push_char(&mut s, 'b');
    } else if c == '\x0c' {
        push_char(&mut s, '\\');
        push_char(&mut s, 'f');
    } else if c == '\n' {
        push_char(&mut s, '\\');
        push_char(&mut s, 'n');
    } else if c == '\r' {
        push_char(&mut s, '\\');
        push_char(&mut s, 'r');
    } else if c == '\t' {
        push_char(&mut s, '\\');
        push_char(&mut s, 't');
    } else if is_control(c) {
        push_char(&mut s, '\\');
        push_char(&mut s, 'u');
        let h = u64_to_hex(c as u64);
        let n: usize = h.as_str().unicode_len();
        let mut k: usize = n;
        while k < 4
            invariant
                n == h@.len(),
                n <= k,
                n >= 4 ==> k == n,
                n < 4 ==> k <= 4,
                s@ == seq!['\\', 'u'] + Seq::new((k - n) as nat, |i: int| '0'),
            decreases 4 - k,
        {
            push_char(&mut s, '0');
            k += 1;
            assert(s@ =~= seq!['\\', 'u'] + Seq::new((k - n) as nat, |i: int| '0'));
        }
        append_str(&mut s, h.as_str());
        assert(s@ =~= char_text(c));
    } else {
        push_char(&mut s, c);
    }
    s
}

/// Appends a text as a JSON string: between double quotes, each character escaped.
fn push_string(r: &mut String, s: &str)
    ensures
        final(r)@ == old(r)@ + seq!['"'] + string_text(s@) + seq!['"'],
{
    let ghost start = r@;
    push_char(r, '"');
    let chars = chars_of(s);
    let ghost all = s@;
    let mut i: usize = 0;
    assert(all.take(0) =~= Seq::<char>::empty());
    while i < chars.len()
        invariant
            i <= chars.len(),
            chars@ == all,
            r@ == start + seq!['"'] + string_text(all.take(i as int)),
        decreases chars.len() - i,
    {
        assert(all.take(i + 1).drop_last() =~= all.take(i as int));
        let t = format_char(chars[i]);
        append_str(r, t.as_str());
        i += 1;
        assert(r@ =~= start + seq!['"'] + string_text(all.take(i as int)));
    }
    assert(all.take(chars.len() as int) =~= all);
    push_char(r, '"');
}

/// The texts of a list, front to back.
fn pieces_from(elems: &mut Vec<JValue>, parts: &mut Vec<String>, Ghost(bound): Ghost<nat>)
    requires
        elems_size(old(elems)@) < bound,
    ensures
        views(final(parts)@) == views(old(parts)@) + elems_text(old(elems)@),
    decreases bound, 0nat,
{
    if elems.len() == 0 {
        assert(views(parts@) =~= views(old(parts)@) + elems_text(old(elems)@));
        return;
    }
    let ghost es = elems@;
    let e = elems.remove(0);
    proof {
        lemma_elems_size(es, 0);
        assert(elems@ =~= es.drop_first());
    }
    let t = e.format();
    let ghost mid = views(parts@);
    parts.push(t);
    assert(views(parts@) =~= mid.push(t@));
    pieces_from(elems, parts, Ghost((bound - 1) as nat));
    assert(views(parts@) =~= views(old(parts)@) + elems_text(es));
}

/// The texts of the members of an object, front to back.
fn members_from(kvs: &mut Vec<(String, JValue)>, parts: &mut Vec<String>, Ghost(bound): Ghost<nat>)
    requires
        pairs_size(old(kvs)@) < bound,
    ensures
        views(final(parts)@) == views(old(parts)@) + pairs_text(old(kvs)@),
    decreases bound, 0nat,
{
    if kvs.len() == 0 {
        assert(views(parts@) =~= views(old(parts)@) + pairs_text(old(kvs)@));
        return;
    }
    let ghost es = kvs@;
    let (k, v) = kvs.remove(0);
    proof {
        lemma_pairs_size(es, 0);
        assert(kvs@ =~= es.drop_first());
    }
    let t = v.format();
    let mut m = String::new();
    push_string(&mut m, k.as_str());
    push_char(&mut m, ':');
    append_str(&mut m, t.as_str());
    assert(m@ =~= pair_text(es[0].0@, jvalue_text(es[0].1)));
    let ghost mid = views(parts@);
    parts.push(m);
    assert(views(parts@) =~= mid.push(m@));
    members_from(kvs, parts, Ghost((bound - 1) as nat));
    assert(views(parts@) =~= views(old(parts)@) + pairs_text(es));
}

impl JValue {
    /// The JSON text of the value.
    pub fn format(self) -> (s: String)
        ensures
            s@ == jvalue_text(self),
        decreases jvalue_size(self), 1nat,
    {
        let ghost me = self;
        match self {
            JValue::Null => {
                let r = lit("null");
                assert(r@ == jvalue_text(me));
                r
            },
            JValue::Number(n) => {
                assert(n@ == jvalue_text(me));
                n
            },
            JValue::String(s) => {
                let mut r = String::new();
                push_string(&mut r, s.as_str());
                assert(r@ =~= jvalue_text(me));
                r
            },
            JValue::Boolean(b) => {
                let r = if b { lit("true") } else { lit("false") };
                assert(r@ == jvalue_text(me));
                r
            },
            JValue::List(elems) => {
                let mut elems = elems;
                let mut parts: Vec<String> = Vec::new();
                assert(views(parts@) =~= Seq::<Seq<char>>::empty());
                pieces_from(&mut elems, &mut parts, Ghost(jvalue_size(me)));
                assert(views(parts@) =~= elems_text(me->List_0@));
                let mut r = lit("[");
                proof {
                    reveal_strlit("[");
                    reveal_strlit(",");
                    assert("["@ =~= seq!['[']);
                    assert(","@ =~= seq![',']);
                }
                let j = join_strings(&parts, ",");
                append_str(&mut r, j.as_str());
                push_char(&mut r, ']');
                assert(r@ =~= jvalue_text(me));
                r
            },
            JValue::Object(kvs) => {
                let mut kvs = kvs;
                let mut parts: Vec<String> = Vec::new();
                assert(views(parts@) =~= Seq::<Seq<char>>::empty());
                members_from(&mut kvs, &mut parts, Ghost(jvalue_size(me)));
                assert(views(parts@) =~= pairs_text(me->Object_0@));
                let mut r = lit("{");
                proof {
                    reveal_strlit("{");
                    reveal_strlit(",");
                    assert("{"@ =~= seq!['{']);
                    assert(","@ =~= seq![',']);
                }
                let j = join_strings(&parts, ",");
                append_str(&mut r, j.as_str());
                push_char(&mut r, '}');
                assert(r@ =~= jvalue_text(me));
                r
            },
        }
    }
}

} // verus!
