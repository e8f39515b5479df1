use vstd::prelude::*;

use crate::common::{Pos, SourceInfo, Value};
use crate::json::{json_type_name, JsonModel, ListElementModel, ObjectElementModel};
use crate::json_parser::{
    escape_spec, hex_value_of, any_char_spec, boolean_spec, exponent_spec, list_element_spec, list_rest_spec, list_spec, null_spec, number_spec,
    object_element_spec, object_rest_spec, object_spec, or_else, string_chars_spec, string_spec, value_spec,
};
use crate::json::{ElementModel, TemplateModel};
use crate::parse_error::ErrorModel;
use crate::serialize_json::char_text;
use crate::reader::{in_class, lemma_run_end_bounds, pos_at, run_end, CharClass};
use crate::runner::json_eval::{json_text, list_texts, member_text, member_texts, template_text};
use crate::text::{join, occurs_at};
use crate::template::{templatize_from, templatize_spec, with_text, TemplateState};

verus! {

/// What the JSON grammar reads from index `i` ends after `i` and within the text.
proof fn lemma_value_bounds(s: Seq<char>, i: int)
    requires
        value_spec(s, i) is Ok,
    ensures
        0 <= i < value_spec(s, i)->Ok_0.1 <= s.len(),
    decreases s.len() - i, 2int,
{
    lemma_value_cases(s, i);
    if null_spec(s, i) is Ok || boolean_spec(s, i) is Ok {
        reveal_strlit("null");
        reveal_strlit("true");
        reveal_strlit("false");
    } else if string_spec(s, i) is Ok {
        lemma_string_bounds(s, i);
    } else if number_spec(s, i) is Ok {
        lemma_number_bounds(s, i);
    } else if list_spec(s, i) is Ok {
        lemma_list_bounds(s, i);
    } else {
        lemma_object_bounds(s, i);
    }
}

/// What the grammar reads as a value is what the first kind of value that reads gives.
proof fn lemma_value_cases(s: Seq<char>, i: int)
    requires
        value_spec(s, i) is Ok,
    ensures
        0 <= i <= s.len(),
        value_spec(s, i) == (if null_spec(s, i) is Ok {
            null_spec(s, i)
        } else if boolean_spec(s, i) is Ok {
            boolean_spec(s, i)
        } else if string_spec(s, i) is Ok {
            string_spec(s, i)
        } else if number_spec(s, i) is Ok {
            number_spec(s, i)
        } else if list_spec(s, i) is Ok {
            list_spec(s, i)
        } else {
            object_spec(s, i)
        }),
{
    let a = null_spec(s, i);
    let b = boolean_spec(s, i);
    let c = string_spec(s, i);
    let d = number_spec(s, i);
    let e = list_spec(s, i);
    let f = object_spec(s, i);
    let r5 = or_else(e, f);
    let r4 = or_else(d, r5);
    let r3 = or_else(c, r4);
    let r2 = or_else(b, r3);
    let r1 = or_else(a, r2);
    assert(value_spec(s, i) == r1);
}

proof fn lemma_chars_bounds(s: Seq<char>, i: int, acc: Seq<(char, Seq<char>, Pos)>)
    requires
        0 <= i <= s.len(),
        string_chars_spec(s, i, acc) is Ok,
    ensures
        i <= string_chars_spec(s, i, acc)->Ok_0.1 <= s.len(),
    decreases s.len() - i,
{
    if !(0 <= i < s.len()) || s[i] == '"' {
    } else {
        match any_char_spec(s, i) {
            Err(e) => {},
            Ok((c, k)) => if i < k <= s.len() {
                lemma_chars_bounds(s, k, acc.push((c, s.subrange(i, k), pos_at(s, i))));
            },
        }
    }
}

proof fn lemma_string_bounds(s: Seq<char>, i: int)
    requires
        string_spec(s, i) is Ok,
    ensures
        0 <= i < string_spec(s, i)->Ok_0.1 <= s.len(),
{
    lemma_chars_bounds(s, i + 1, Seq::empty());
}

proof fn lemma_number_bounds(s: Seq<char>, i: int)
    requires
        number_spec(s, i) is Ok,
    ensures
        0 <= i < number_spec(s, i)->Ok_0.1 <= s.len(),
{
    reveal_strlit("-");
    reveal_strlit("0");
    let j = if crate::text::occurs_at(s, "-"@, i) { i + 1 } else { i };
    assert(0 <= i <= j <= s.len());
    lemma_run_end_bounds(s, j, CharClass::Digit);
    let d = run_end(s, j, CharClass::Digit);
    let k = if crate::text::occurs_at(s, "0"@, j) { j + 1 } else { d };
    if 0 <= k < s.len() && s[k] == '.' {
        lemma_run_end_bounds(s, k + 1, CharClass::Digit);
        let f = run_end(s, k + 1, CharClass::Digit);
        lemma_exponent_bounds(s, f, s.subrange(i, f));
    } else {
        lemma_exponent_bounds(s, k, s.subrange(i, k));
    }
}

proof fn lemma_exponent_bounds(s: Seq<char>, i: int, prefix: Seq<char>)
    requires
        0 <= i <= s.len(),
    ensures
        i <= exponent_spec(s, i, prefix).1 <= s.len(),
{
    reveal_strlit("-");
    reveal_strlit("+");
    if 0 <= i < s.len() && (s[i] == 'e' || s[i] == 'E') {
        let sign_end = if crate::text::occurs_at(s, "-"@, i + 1) || crate::text::occurs_at(s, "+"@, i + 1) { i + 2 } else { i + 1 };
        lemma_run_end_bounds(s, sign_end, CharClass::Digit);
    }
}

proof fn lemma_list_bounds(s: Seq<char>, i: int)
    requires
        list_spec(s, i) is Ok,
    ensures
        0 <= i < list_spec(s, i)->Ok_0.1 <= s.len(),
    decreases s.len() - i, 1int,
{
    lemma_run_end_bounds(s, i + 1, CharClass::Whitespace);
    let j = run_end(s, i + 1, CharClass::Whitespace);
    if j < s.len() && s[j] == ']' {
    } else {
        let (e1, k) = list_element_spec(s, j, None)->Ok_0;
        lemma_list_rest_bounds(s, k, json_type_name(e1.value), seq![e1], s.subrange(i + 1, j));
    }
}

proof fn lemma_list_rest_bounds(s: Seq<char>, i: int, t: Seq<char>, acc: Seq<ListElementModel>, space0: Seq<char>)
    requires
        0 <= i,
        list_rest_spec(s, i, t, acc, space0) is Ok,
    ensures
        i < list_rest_spec(s, i, t, acc, space0)->Ok_0.1 <= s.len(),
    decreases s.len() - i, 0int,
{
    if 0 <= i < s.len() && s[i] == ']' {
    } else {
        let (e, k) = list_element_spec(s, i + 1, Some(t))->Ok_0;
        lemma_list_rest_bounds(s, k, t, acc.push(e), space0);
    }
}

proof fn lemma_object_bounds(s: Seq<char>, i: int)
    requires
        object_spec(s, i) is Ok,
    ensures
        0 <= i < object_spec(s, i)->Ok_0.1 <= s.len(),
    decreases s.len() - i, 1int,
{
    lemma_run_end_bounds(s, i + 1, CharClass::Whitespace);
    let j = run_end(s, i + 1, CharClass::Whitespace);
    if j < s.len() && s[j] == '}' {
    } else {
        let (e1, k) = object_element_spec(s, j)->Ok_0;
        lemma_object_rest_bounds(s, k, seq![e1], s.subrange(i + 1, j));
    }
}

proof fn lemma_object_rest_bounds(s: Seq<char>, i: int, acc: Seq<ObjectElementModel>, space0: Seq<char>)
    requires
        0 <= i,
        object_rest_spec(s, i, acc, space0) is Ok,
    ensures
        i < object_rest_spec(s, i, acc, space0)->Ok_0.1 <= s.len(),
    decreases s.len() - i, 0int,
{
    if 0 <= i < s.len() && s[i] == '}' {
    } else {
        let (e, k) = object_element_spec(s, i + 1)->Ok_0;
        lemma_object_rest_bounds(s, k, acc.push(e), space0);
    }
}


/// From index `a` to `b` the text has no backslash and no `{{`.
#[verifier::opaque]
pub open spec fn plain(s: Seq<char>, a: int, b: int) -> bool {
    forall|k: int| a <= k < b ==> #[trigger] s[k] != '\\' && !(s[k] == '{' && k + 1 < b && s[k + 1] == '{')
}

/// The number written at `i` writes its exponent, if it has one, with a lower-case `e`.
pub open spec fn number_lower(s: Seq<char>, i: int) -> bool {
    let j = if occurs_at(s, "-"@, i) { i + 1 } else { i };
    let d = run_end(s, j, CharClass::Digit);
    let k = if occurs_at(s, "0"@, j) { j + 1 } else { d };
    let p = if 0 <= k < s.len() && s[k] == '.' { run_end(s, k + 1, CharClass::Digit) } else { k };
    !(0 <= p < s.len() && s[p] == 'E')
}

/// No number of the JSON value written at `i` writes its exponent with an upper-case `E`.
#[verifier::opaque]
pub open spec fn value_lower(s: Seq<char>, i: int) -> bool
    decreases s.len() - i, 2int,
{
    if !(0 <= i <= s.len()) {
        true
    } else if null_spec(s, i) is Ok || boolean_spec(s, i) is Ok || string_spec(s, i) is Ok {
        true
    } else if number_spec(s, i) is Ok {
        number_lower(s, i)
    } else if list_spec(s, i) is Ok {
        list_lower(s, i)
    } else {
        object_lower(s, i)
    }
}

/// No number of the list written at `i` writes its exponent with an upper-case `E`.
#[verifier::opaque]
pub open spec fn list_lower(s: Seq<char>, i: int) -> bool
    decreases s.len() - i, 1int,
{
    if !(0 <= i < s.len() && s[i] == '[') {
        true
    } else {
        let j = run_end(s, i + 1, CharClass::Whitespace);
        proof { lemma_run_end_bounds(s, i + 1, CharClass::Whitespace); }
        if j < s.len() && s[j] == ']' {
            true
        } else {
            element_lower(s, j) && match list_element_spec(s, j, None) {
                Ok((e1, k)) => if j < k <= s.len() { list_rest_lower(s, k, json_type_name(e1.value)) } else { true },
                Err(_) => true,
            }
        }
    }
}

/// No number of the rest of the list from `i` writes its exponent with an upper-case `E`.
#[verifier::opaque]
pub open spec fn list_rest_lower(s: Seq<char>, i: int, t: Seq<char>) -> bool
    decreases s.len() - i, 0int,
{
    if !(0 <= i < s.len() && s[i] == ',') {
        true
    } else {
        element_lower(s, i + 1) && match list_element_spec(s, i + 1, Some(t)) {
            Ok((e, k)) => if i < k <= s.len() { list_rest_lower(s, k, t) } else { true },
            Err(_) => true,
        }
    }
}

/// No number of the list element written at `i` writes its exponent with an upper-case `E`.
#[verifier::opaque]
pub open spec fn element_lower(s: Seq<char>, i: int) -> bool
    decreases s.len() - i, 3int,
{
    if !(0 <= i <= s.len()) {
        true
    } else {
        let j = run_end(s, i, CharClass::Whitespace);
        proof { lemma_run_end_bounds(s, i, CharClass::Whitespace); }
        value_lower(s, j)
    }
}

/// No number of the object written at `i` writes its exponent with an upper-case `E`.
#[verifier::opaque]
pub open spec fn object_lower(s: Seq<char>, i: int) -> bool
    decreases s.len() - i, 1int,
{
    if !(0 <= i < s.len() && s[i] == '{') {
        true
    } else {
        let j = run_end(s, i + 1, CharClass::Whitespace);
        proof { lemma_run_end_bounds(s, i + 1, CharClass::Whitespace); }
        if j < s.len() && s[j] == '}' {
            true
        } else {
            member_lower(s, j) && match object_element_spec(s, j) {
                Ok((e1, k)) => if j < k <= s.len() { object_rest_lower(s, k) } else { true },
                Err(_) => true,
            }
        }
    }
}

/// No number of the rest of the object from `i` writes its exponent with an upper-case `E`.
#[verifier::opaque]
pub open spec fn object_rest_lower(s: Seq<char>, i: int) -> bool
    decreases s.len() - i, 0int,
{
    if !(0 <= i < s.len() && s[i] == ',') {
        true
    } else {
        member_lower(s, i + 1) && match object_element_spec(s, i + 1) {
            Ok((e, k)) => if i < k <= s.len() { object_rest_lower(s, k) } else { true },
            Err(_) => true,
        }
    }
}

/// No number of the object member written at `i` writes its exponent with an upper-case `E`.
#[verifier::opaque]
pub open spec fn member_lower(s: Seq<char>, i: int) -> bool
    decreases s.len() - i, 3int,
{
    if !(0 <= i <= s.len()) {
        true
    } else {
        let j = run_end(s, i, CharClass::Whitespace);
        proof { lemma_run_end_bounds(s, i, CharClass::Whitespace); }
        if !(j < s.len() && s[j] == '"') {
            true
        } else {
            let a = run_end(s, j + 1, CharClass::KeyChar);
            proof { lemma_run_end_bounds(s, j + 1, CharClass::KeyChar); }
            if !(a < s.len() && s[a] == '"') {
                true
            } else {
                let b = run_end(s, a + 1, CharClass::Whitespace);
                proof { lemma_run_end_bounds(s, a + 1, CharClass::Whitespace); }
                if !(b < s.len() && s[b] == ':') {
                    true
                } else {
                    let c = run_end(s, b + 1, CharClass::Whitespace);
                    proof { lemma_run_end_bounds(s, b + 1, CharClass::Whitespace); }
                    value_lower(s, c)
                }
            }
        }
    }
}


/// The last character of a non-empty run is of the run's class.
proof fn lemma_run_end_last(s: Seq<char>, j: int, c: CharClass)
    requires
        0 <= j,
        run_end(s, j, c) > j,
    ensures
        run_end(s, j, c) <= s.len(),
        in_class(c, s[run_end(s, j, c) - 1]),
    decreases s.len() - j,
{
    if run_end(s, j + 1, c) > j + 1 {
        lemma_run_end_last(s, j + 1, c);
    }
}

/// The characters of a string from `i` to `j`, none of them escaped.
pub open spec fn plain_chars(s: Seq<char>, i: int, j: int) -> Seq<(char, Seq<char>, Pos)> {
    Seq::new((j - i) as nat, |k: int| (s[i + k], seq![s[i + k]], pos_at(s, i + k)))
}

/// The characters themselves.
pub open spec fn char_values(cs: Seq<(char, Seq<char>, Pos)>) -> Seq<char> {
    cs.map_values(|x: (char, Seq<char>, Pos)| x.0)
}

proof fn lemma_chars_plain(s: Seq<char>, i: int, acc: Seq<(char, Seq<char>, Pos)>, b: int)
    requires
        0 <= i <= s.len(),
        string_chars_spec(s, i, acc) is Ok,
        string_chars_spec(s, i, acc)->Ok_0.1 <= b,
        plain(s, i, b),
    ensures
        string_chars_spec(s, i, acc)->Ok_0.0 == acc + plain_chars(s, i, string_chars_spec(s, i, acc)->Ok_0.1),
    decreases s.len() - i,
{
    reveal(plain);
    if !(0 <= i < s.len()) || s[i] == '"' {
        assert(plain_chars(s, i, i) =~= Seq::<(char, Seq<char>, Pos)>::empty());
        assert(acc + plain_chars(s, i, i) =~= acc);
    } else {
        match any_char_spec(s, i) {
            Err(e) => {},
            Ok((c, k)) => if i < k <= s.len() {
                let acc2 = acc.push((c, s.subrange(i, k), pos_at(s, i)));
                lemma_chars_bounds(s, k, acc2);
                let j = string_chars_spec(s, k, acc2)->Ok_0.1;
                assert(string_chars_spec(s, i, acc) == string_chars_spec(s, k, acc2));
                assert(s[i] != '\\');
                assert(c == s[i] && k == i + 1);
                lemma_chars_plain(s, k, acc2, b);
                assert(s.subrange(i, i + 1) =~= seq![s[i]]);
                assert(acc2 + plain_chars(s, i + 1, j) =~= acc + plain_chars(s, i, j));
            } else {
                assert(plain_chars(s, i, i) =~= Seq::<(char, Seq<char>, Pos)>::empty());
                assert(acc + plain_chars(s, i, i) =~= acc);
            },
        }
    }
}

proof fn lemma_with_text(v: Seq<char>, e: Seq<char>, vs: Seq<(String, Value)>)
    ensures
        template_text(with_text(Seq::empty(), v, e), vs) == Ok::<Seq<char>, (SourceInfo, Seq<char>)>(v),
{
    let es = with_text(Seq::empty(), v, e);
    let empty = Seq::<ElementModel>::empty();
    assert(template_text(empty, vs) == Ok::<Seq<char>, (SourceInfo, Seq<char>)>(Seq::empty()));
    if v.len() > 0 {
        assert(es == empty.push(ElementModel::Text { value: v, encoded: e }));
        assert(es.drop_last() =~= empty);
        assert(es.len() == 1);
        assert(es.last() == ElementModel::Text { value: v, encoded: e });
        assert(Seq::<char>::empty() + v =~= v);
        assert(template_text(es, vs) == Ok::<Seq<char>, (SourceInfo, Seq<char>)>(Seq::<char>::empty() + v));
    } else {
        assert(v =~= Seq::<char>::empty());
        assert(es == empty);
    }
}

proof fn lemma_templatize_plain(
    chars: Seq<(char, Seq<char>, Pos)>,
    i: int,
    fob: bool,
    value: Seq<char>,
    encoded: Seq<char>,
    end: Pos,
    vs: Seq<(String, Value)>,
)
    requires
        0 <= i <= chars.len(),
        forall|k: int| 0 <= k < chars.len() ==> #[trigger] chars[k].1 == seq![chars[k].0],
        forall|k: int| 0 <= k < chars.len() - 1 ==> !(#[trigger] chars[k].0 == '{' && chars[k + 1].0 == '{'),
        fob ==> (i < chars.len() ==> chars[i].0 != '{'),
    ensures
        templatize_from(chars, i, if fob { TemplateState::FirstOpenBracket } else { TemplateState::Text }, value, encoded, Seq::empty(), None, end) is Ok,
        template_text(
            templatize_from(chars, i, if fob { TemplateState::FirstOpenBracket } else { TemplateState::Text }, value, encoded, Seq::empty(), None, end)->Ok_0,
            vs,
        ) == Ok::<Seq<char>, (SourceInfo, Seq<char>)>((if fob { value.push('{') } else { value }) + char_values(chars.subrange(i, chars.len() as int))),
    decreases chars.len() - i,
{
    let rest = char_values(chars.subrange(i, chars.len() as int));
    if i >= chars.len() {
        assert(rest =~= Seq::<char>::empty());
        if fob {
            lemma_with_text(value.push('{'), encoded.push('{'), vs);
            assert(value.push('{') + rest =~= value.push('{'));
        } else {
            lemma_with_text(value, encoded, vs);
            assert(value + rest =~= value);
        }
    } else {
        let c = chars[i].0;
        let next = char_values(chars.subrange(i + 1, chars.len() as int));
        assert(rest =~= seq![c] + next);
        if !fob {
            if c == '{' {
                assert(chars[i].1 == seq!['{']);
                if i + 1 < chars.len() {
                    assert(!(chars[i].0 == '{' && chars[i + 1].0 == '{'));
                }
                lemma_templatize_plain(chars, i + 1, true, value, encoded, end, vs);
                assert(value.push('{') + next =~= value + rest);
            } else {
                assert(chars[i].1 != seq!['{']) by {
                    assert(chars[i].1[0] == c);
                }
                lemma_templatize_plain(chars, i + 1, false, value.push(c), encoded + chars[i].1, end, vs);
                assert(value.push(c) + next =~= value + rest);
            }
        } else {
            assert(chars[i].1 != seq!['{']) by {
                assert(chars[i].1[0] == c);
            }
            lemma_templatize_plain(chars, i + 1, false, value.push('{').push(c), encoded.push('{') + chars[i].1, end, vs);
            assert(value.push('{').push(c) + next =~= value.push('{') + rest);
        }
    }
}

/// A JSON string with no escape and no `{{` reads back as written.
proof fn lemma_string_round_trip(s: Seq<char>, i: int, vs: Seq<(String, Value)>)
    requires
        string_spec(s, i) is Ok,
        plain(s, i, string_spec(s, i)->Ok_0.1),
    ensures
        json_text(string_spec(s, i)->Ok_0.0, vs) == Ok::<Seq<char>, (SourceInfo, Seq<char>)>(s.subrange(i, string_spec(s, i)->Ok_0.1)),
{
    reveal(plain);
    lemma_chars_bounds(s, i + 1, Seq::empty());
    let j = string_chars_spec(s, i + 1, Seq::empty())->Ok_0.1;
    lemma_chars_plain(s, i + 1, Seq::empty(), j + 1);
    let chars = plain_chars(s, i + 1, j);
    assert(Seq::<(char, Seq<char>, Pos)>::empty() + chars =~= chars);
    assert forall|k: int| 0 <= k < chars.len() - 1 implies !(#[trigger] chars[k].0 == '{' && chars[k + 1].0 == '{') by {
        assert(chars[k].0 == s[i + 1 + k]);
        assert(chars[k + 1].0 == s[i + 1 + k + 1]);
    }
    lemma_templatize_plain(chars, 0, false, Seq::empty(), Seq::empty(), pos_at(s, j), vs);
    assert(chars.subrange(0, chars.len() as int) =~= chars);
    assert(char_values(chars) =~= s.subrange(i + 1, j));
    assert(Seq::<char>::empty() + char_values(chars) =~= char_values(chars));
    assert(seq!['"'] + s.subrange(i + 1, j) + seq!['"'] =~= s.subrange(i, j + 1));
}


proof fn lemma_exponent_round_trip(s: Seq<char>, i: int, p: int)
    requires
        0 <= i < p <= s.len(),
        !(p < s.len() && s[p] == 'E'),
    ensures
        exponent_spec(s, p, s.subrange(i, p)).0 == JsonModel::Number(s.subrange(i, exponent_spec(s, p, s.subrange(i, p)).1)),
{
    reveal_strlit("-");
    reveal_strlit("+");
    if 0 <= p < s.len() && (s[p] == 'e' || s[p] == 'E') {
        let sign_end = if occurs_at(s, "-"@, p + 1) || occurs_at(s, "+"@, p + 1) { p + 2 } else { p + 1 };
        lemma_run_end_bounds(s, sign_end, CharClass::Digit);
        let d = run_end(s, sign_end, CharClass::Digit);
        assert(s.subrange(i, p) + seq!['e'] + s.subrange(p + 1, sign_end) + s.subrange(sign_end, d) =~= s.subrange(i, d));
    }
}

proof fn lemma_number_round_trip(s: Seq<char>, i: int)
    requires
        number_spec(s, i) is Ok,
        number_lower(s, i),
    ensures
        number_spec(s, i)->Ok_0.0 == JsonModel::Number(s.subrange(i, number_spec(s, i)->Ok_0.1)),
{
    reveal(plain);
    reveal_strlit("-");
    reveal_strlit("0");
    lemma_number_bounds(s, i);
    let j = if occurs_at(s, "-"@, i) { i + 1 } else { i };
    lemma_run_end_bounds(s, j, CharClass::Digit);
    let d = run_end(s, j, CharClass::Digit);
    let k = if occurs_at(s, "0"@, j) { j + 1 } else { d };
    if 0 <= k < s.len() && s[k] == '.' {
        lemma_run_end_bounds(s, k + 1, CharClass::Digit);
        let f = run_end(s, k + 1, CharClass::Digit);
        lemma_run_end_last(s, k + 1, CharClass::Digit);
        assert(s.subrange(i, j) + s.subrange(j, k) + s.subrange(k, f) =~= s.subrange(i, f));
        lemma_exponent_round_trip(s, i, f);
    } else {
        if !occurs_at(s, "0"@, j) {
            lemma_run_end_last(s, j, CharClass::Digit);
        } else {
            assert(s.subrange(j, j + 1)[0] == s[j]);
        }
        assert(s.subrange(i, j) + s.subrange(j, k) =~= s.subrange(i, k));
        lemma_exponent_round_trip(s, i, k);
    }
}

/// A plain range stays plain on a smaller range.
proof fn lemma_plain_sub(s: Seq<char>, a: int, b: int, c: int, d: int)
    requires
        plain(s, a, b),
        a <= c,
        d <= b,
    ensures
        plain(s, c, d),
{
    reveal(plain);
}

proof fn lemma_list_texts_push(es: Seq<ListElementModel>, e: ListElementModel, vs: Seq<(String, Value)>)
    requires
        list_texts(es, vs) is Ok,
        json_text(e.value, vs) is Ok,
    ensures
        list_texts(es.push(e), vs) == Ok::<Seq<Seq<char>>, (SourceInfo, Seq<char>)>(
            list_texts(es, vs)->Ok_0.push(e.space0 + json_text(e.value, vs)->Ok_0 + e.space1),
        ),
    decreases es.len(),
{
    if es.len() == 0 {
        assert(es.push(e).drop_first() =~= es);
        assert(seq![e.space0 + json_text(e.value, vs)->Ok_0 + e.space1] + Seq::<Seq<char>>::empty() =~= Seq::<Seq<char>>::empty().push(e.space0 + json_text(e.value, vs)->Ok_0 + e.space1));
    } else {
        assert(es.push(e).drop_first() =~= es.drop_first().push(e));
        assert(es.push(e)[0] == es[0]);
        lemma_list_texts_push(es.drop_first(), e, vs);
        let t0 = json_text(es[0].value, vs)->Ok_0;
        let x = e.space0 + json_text(e.value, vs)->Ok_0 + e.space1;
        assert(seq![es[0].space0 + t0 + es[0].space1] + list_texts(es.drop_first(), vs)->Ok_0.push(x)
            =~= (seq![es[0].space0 + t0 + es[0].space1] + list_texts(es.drop_first(), vs)->Ok_0).push(x));
    }
}

proof fn lemma_member_texts_push(es: Seq<ObjectElementModel>, e: ObjectElementModel, vs: Seq<(String, Value)>)
    requires
        member_texts(es, vs) is Ok,
        json_text(e.value, vs) is Ok,
    ensures
        member_texts(es.push(e), vs) == Ok::<Seq<Seq<char>>, (SourceInfo, Seq<char>)>(
            member_texts(es, vs)->Ok_0.push(member_text(e, json_text(e.value, vs)->Ok_0)),
        ),
    decreases es.len(),
{
    if es.len() == 0 {
        assert(es.push(e).drop_first() =~= es);
        assert(seq![member_text(e, json_text(e.value, vs)->Ok_0)] + Seq::<Seq<char>>::empty() =~= Seq::<Seq<char>>::empty().push(member_text(e, json_text(e.value, vs)->Ok_0)));
    } else {
        assert(es.push(e).drop_first() =~= es.drop_first().push(e));
        assert(es.push(e)[0] == es[0]);
        lemma_member_texts_push(es.drop_first(), e, vs);
        let t0 = json_text(es[0].value, vs)->Ok_0;
        let x = member_text(e, json_text(e.value, vs)->Ok_0);
        assert(seq![member_text(es[0], t0)] + member_texts(es.drop_first(), vs)->Ok_0.push(x)
            =~= (seq![member_text(es[0], t0)] + member_texts(es.drop_first(), vs)->Ok_0).push(x));
    }
}

proof fn lemma_join_push(ts: Seq<Seq<char>>, x: Seq<char>)
    requires
        ts.len() > 0,
    ensures
        join(ts.push(x), seq![',']) == join(ts, seq![',']) + seq![','] + x,
{
    assert(ts.push(x).drop_last() =~= ts);
}


/// One more element after a comma extends the text of the elements read so far.
proof fn lemma_rest_step(s: Seq<char>, start: int, i: int, k: int, open: char, space0: Seq<char>, ts: Seq<Seq<char>>, x: Seq<char>)
    requires
        0 <= start < i < k <= s.len(),
        s[i] == ',',
        ts.len() > 0,
        s.subrange(start, i) == seq![open] + space0 + join(ts, seq![',']),
        s.subrange(i + 1, k) == x,
    ensures
        s.subrange(start, k) == seq![open] + space0 + join(ts.push(x), seq![',']),
{
    lemma_join_push(ts, x);
    assert(s.subrange(start, i) + seq![','] + s.subrange(i + 1, k) =~= s.subrange(start, k));
}


/// The parts of a list with no upper-case exponent have none.
#[verifier::spinoff_prover]
proof fn lemma_list_lower_parts(s: Seq<char>, i: int)
    requires
        list_spec(s, i) is Ok,
        list_lower(s, i),
        !(run_end(s, i + 1, CharClass::Whitespace) < s.len() && s[run_end(s, i + 1, CharClass::Whitespace)] == ']'),
    ensures
        element_lower(s, run_end(s, i + 1, CharClass::Whitespace)),
        list_element_spec(s, run_end(s, i + 1, CharClass::Whitespace), None) is Ok,
        list_rest_lower(
            s,
            list_element_spec(s, run_end(s, i + 1, CharClass::Whitespace), None)->Ok_0.1,
            json_type_name(list_element_spec(s, run_end(s, i + 1, CharClass::Whitespace), None)->Ok_0.0.value),
        ),
{
    reveal_with_fuel(list_lower, 1);
    lemma_run_end_bounds(s, i + 1, CharClass::Whitespace);
    let j = run_end(s, i + 1, CharClass::Whitespace);
    let (e1, k) = list_element_spec(s, j, None)->Ok_0;
    assert(j < k <= s.len());
}

/// The parts of an object with no upper-case exponent have none.
#[verifier::spinoff_prover]
proof fn lemma_object_lower_parts(s: Seq<char>, i: int)
    requires
        object_spec(s, i) is Ok,
        object_lower(s, i),
        !(run_end(s, i + 1, CharClass::Whitespace) < s.len() && s[run_end(s, i + 1, CharClass::Whitespace)] == '}'),
    ensures
        member_lower(s, run_end(s, i + 1, CharClass::Whitespace)),
        object_element_spec(s, run_end(s, i + 1, CharClass::Whitespace)) is Ok,
        object_rest_lower(s, object_element_spec(s, run_end(s, i + 1, CharClass::Whitespace))->Ok_0.1),
{
    reveal_with_fuel(object_lower, 1);
    lemma_run_end_bounds(s, i + 1, CharClass::Whitespace);
}

#[verifier::spinoff_prover]
proof fn lemma_value_round_trip(s: Seq<char>, i: int, vs: Seq<(String, Value)>)
    requires
        value_spec(s, i) is Ok,
        plain(s, i, value_spec(s, i)->Ok_0.1),
        value_lower(s, i),
    ensures
        json_text(value_spec(s, i)->Ok_0.0, vs) == Ok::<Seq<char>, (SourceInfo, Seq<char>)>(s.subrange(i, value_spec(s, i)->Ok_0.1)),
    decreases s.len() - i, 2int,
{
    reveal_with_fuel(value_lower, 1);
    lemma_value_cases(s, i);
    lemma_value_bounds(s, i);
    if null_spec(s, i) is Ok {
        reveal_strlit("null");
    } else if boolean_spec(s, i) is Ok {
        reveal_strlit("true");
        reveal_strlit("false");
    } else if string_spec(s, i) is Ok {
        lemma_string_round_trip(s, i, vs);
    } else if number_spec(s, i) is Ok {
        lemma_number_round_trip(s, i);
    } else if list_spec(s, i) is Ok {
        lemma_list_round_trip(s, i, vs);
    } else {
        lemma_object_round_trip(s, i, vs);
    }
}

#[verifier::rlimit(100)]
#[verifier::spinoff_prover]
proof fn lemma_list_element_round_trip(s: Seq<char>, i: int, t: Option<Seq<char>>, vs: Seq<(String, Value)>)
    requires
        0 <= i,
        list_element_spec(s, i, t) is Ok,
        plain(s, i, list_element_spec(s, i, t)->Ok_0.1),
        element_lower(s, i),
    ensures
        i < list_element_spec(s, i, t)->Ok_0.1 <= s.len(),
        json_text(list_element_spec(s, i, t)->Ok_0.0.value, vs) is Ok,
        list_element_spec(s, i, t)->Ok_0.0.space0 + json_text(list_element_spec(s, i, t)->Ok_0.0.value, vs)->Ok_0
            + list_element_spec(s, i, t)->Ok_0.0.space1 == s.subrange(i, list_element_spec(s, i, t)->Ok_0.1),
    decreases s.len() - i, 3int,
{
    reveal_with_fuel(element_lower, 1);
    lemma_run_end_bounds(s, i, CharClass::Whitespace);
    let j = run_end(s, i, CharClass::Whitespace);
    lemma_value_bounds(s, j);
    let k = value_spec(s, j)->Ok_0.1;
    lemma_run_end_bounds(s, k, CharClass::Whitespace);
    let m = run_end(s, k, CharClass::Whitespace);
    lemma_plain_sub(s, i, m, j, k);
    lemma_value_round_trip(s, j, vs);
    assert(s.subrange(i, j) + s.subrange(j, k) + s.subrange(k, m) =~= s.subrange(i, m));
}

#[verifier::rlimit(100)]
#[verifier::spinoff_prover]
proof fn lemma_list_round_trip(s: Seq<char>, i: int, vs: Seq<(String, Value)>)
    requires
        list_spec(s, i) is Ok,
        plain(s, i, list_spec(s, i)->Ok_0.1),
        list_lower(s, i),
    ensures
        json_text(list_spec(s, i)->Ok_0.0, vs) == Ok::<Seq<char>, (SourceInfo, Seq<char>)>(s.subrange(i, list_spec(s, i)->Ok_0.1)),
    decreases s.len() - i, 1int,
{
    lemma_list_bounds(s, i);
    lemma_run_end_bounds(s, i + 1, CharClass::Whitespace);
    let j = run_end(s, i + 1, CharClass::Whitespace);
    let space0 = s.subrange(i + 1, j);
    if j < s.len() && s[j] == ']' {
        assert(join(Seq::<Seq<char>>::empty(), seq![',']) == Seq::<char>::empty());
        assert(seq!['['] + space0 + Seq::<char>::empty() + seq![']'] =~= s.subrange(i, j + 1));
    } else {
        lemma_list_lower_parts(s, i);
        lemma_list_items_round_trip(s, i, vs);
    }
}

#[verifier::rlimit(100)]
#[verifier::spinoff_prover]
proof fn lemma_list_items_round_trip(s: Seq<char>, i: int, vs: Seq<(String, Value)>)
    requires
        list_spec(s, i) is Ok,
        plain(s, i, list_spec(s, i)->Ok_0.1),
        !(run_end(s, i + 1, CharClass::Whitespace) < s.len() && s[run_end(s, i + 1, CharClass::Whitespace)] == ']'),
        element_lower(s, run_end(s, i + 1, CharClass::Whitespace)),
        list_element_spec(s, run_end(s, i + 1, CharClass::Whitespace), None) is Ok,
        list_rest_lower(
            s,
            list_element_spec(s, run_end(s, i + 1, CharClass::Whitespace), None)->Ok_0.1,
            json_type_name(list_element_spec(s, run_end(s, i + 1, CharClass::Whitespace), None)->Ok_0.0.value),
        ),
    ensures
        json_text(list_spec(s, i)->Ok_0.0, vs) == Ok::<Seq<char>, (SourceInfo, Seq<char>)>(s.subrange(i, list_spec(s, i)->Ok_0.1)),
    decreases s.len() - i, 0int,
{
    lemma_list_bounds(s, i);
    lemma_run_end_bounds(s, i + 1, CharClass::Whitespace);
    let j = run_end(s, i + 1, CharClass::Whitespace);
    let space0 = s.subrange(i + 1, j);
    let (e1, k) = list_element_spec(s, j, None)->Ok_0;
    let end = list_spec(s, i)->Ok_0.1;
    lemma_list_rest_bounds(s, k, json_type_name(e1.value), seq![e1], space0);
    lemma_plain_sub(s, i, end, j, k);
    lemma_list_element_round_trip(s, j, None, vs);
    let x = e1.space0 + json_text(e1.value, vs)->Ok_0 + e1.space1;
    lemma_list_texts_push(Seq::empty(), e1, vs);
    assert(Seq::<ListElementModel>::empty().push(e1) =~= seq![e1]);
    assert(Seq::<Seq<char>>::empty().push(x) =~= seq![x]);
    assert(join(seq![x], seq![',']) == x);
    assert(seq!['['] + space0 + x =~= s.subrange(i, k));
    lemma_list_rest_round_trip(s, k, json_type_name(e1.value), seq![e1], space0, i, seq![x], vs);
}

#[verifier::rlimit(100)]
#[verifier::spinoff_prover]
proof fn lemma_list_rest_round_trip(
    s: Seq<char>,
    i: int,
    t: Seq<char>,
    acc: Seq<ListElementModel>,
    space0: Seq<char>,
    start: int,
    ts: Seq<Seq<char>>,
    vs: Seq<(String, Value)>,
)
    requires
        0 <= start < i <= s.len(),
        list_rest_spec(s, i, t, acc, space0) is Ok,
        plain(s, start, list_rest_spec(s, i, t, acc, space0)->Ok_0.1),
        list_rest_lower(s, i, t),
        list_texts(acc, vs) == Ok::<Seq<Seq<char>>, (SourceInfo, Seq<char>)>(ts),
        ts.len() > 0,
        s.subrange(start, i) == seq!['['] + space0 + join(ts, seq![',']),
    ensures
        json_text(list_rest_spec(s, i, t, acc, space0)->Ok_0.0, vs) == Ok::<Seq<char>, (SourceInfo, Seq<char>)>(
            s.subrange(start, list_rest_spec(s, i, t, acc, space0)->Ok_0.1),
        ),
    decreases s.len() - i, 0int,
{
    reveal_with_fuel(list_rest_lower, 1);
    lemma_list_rest_bounds(s, i, t, acc, space0);
    let end = list_rest_spec(s, i, t, acc, space0)->Ok_0.1;
    if 0 <= i < s.len() && s[i] == ']' {
        assert(s.subrange(start, i) + seq![']'] =~= s.subrange(start, i + 1));
    } else {
        let (e, k) = list_element_spec(s, i + 1, Some(t))->Ok_0;
        lemma_list_rest_bounds(s, k, t, acc.push(e), space0);
        lemma_plain_sub(s, start, end, i + 1, k);
        lemma_list_element_round_trip(s, i + 1, Some(t), vs);
        let x = e.space0 + json_text(e.value, vs)->Ok_0 + e.space1;
        lemma_list_texts_push(acc, e, vs);
        lemma_rest_step(s, start, i, k, '[', space0, ts, x);
        lemma_list_rest_round_trip(s, k, t, acc.push(e), space0, start, ts.push(x), vs);
    }
}

#[verifier::rlimit(100)]
#[verifier::spinoff_prover]
proof fn lemma_object_element_round_trip(s: Seq<char>, i: int, vs: Seq<(String, Value)>)
    requires
        0 <= i,
        object_element_spec(s, i) is Ok,
        plain(s, i, object_element_spec(s, i)->Ok_0.1),
        member_lower(s, i),
    ensures
        i < object_element_spec(s, i)->Ok_0.1 <= s.len(),
        json_text(object_element_spec(s, i)->Ok_0.0.value, vs) is Ok,
        member_text(object_element_spec(s, i)->Ok_0.0, json_text(object_element_spec(s, i)->Ok_0.0.value, vs)->Ok_0)
            == s.subrange(i, object_element_spec(s, i)->Ok_0.1),
    decreases s.len() - i, 3int,
{
    reveal_with_fuel(member_lower, 1);
    lemma_run_end_bounds(s, i, CharClass::Whitespace);
    let j = run_end(s, i, CharClass::Whitespace);
    lemma_run_end_bounds(s, j + 1, CharClass::KeyChar);
    let a = run_end(s, j + 1, CharClass::KeyChar);
    lemma_run_end_bounds(s, a + 1, CharClass::Whitespace);
    let b = run_end(s, a + 1, CharClass::Whitespace);
    lemma_run_end_bounds(s, b + 1, CharClass::Whitespace);
    let c = run_end(s, b + 1, CharClass::Whitespace);
    lemma_value_bounds(s, c);
    let d = value_spec(s, c)->Ok_0.1;
    lemma_run_end_bounds(s, d, CharClass::Whitespace);
    let e = run_end(s, d, CharClass::Whitespace);
    lemma_plain_sub(s, i, e, c, d);
    lemma_value_round_trip(s, c, vs);
    assert(s.subrange(i, j) + seq!['"'] + s.subrange(j + 1, a) + seq!['"'] + s.subrange(a + 1, b) + seq![':']
        + s.subrange(b + 1, c) + s.subrange(c, d) + s.subrange(d, e) =~= s.subrange(i, e));
}

#[verifier::rlimit(100)]
#[verifier::spinoff_prover]
proof fn lemma_object_round_trip(s: Seq<char>, i: int, vs: Seq<(String, Value)>)
    requires
        object_spec(s, i) is Ok,
        plain(s, i, object_spec(s, i)->Ok_0.1),
        object_lower(s, i),
    ensures
        json_text(object_spec(s, i)->Ok_0.0, vs) == Ok::<Seq<char>, (SourceInfo, Seq<char>)>(s.subrange(i, object_spec(s, i)->Ok_0.1)),
    decreases s.len() - i, 1int,
{
    lemma_object_bounds(s, i);
    lemma_run_end_bounds(s, i + 1, CharClass::Whitespace);
    let j = run_end(s, i + 1, CharClass::Whitespace);
    let space0 = s.subrange(i + 1, j);
    if j < s.len() && s[j] == '}' {
        assert(join(Seq::<Seq<char>>::empty(), seq![',']) == Seq::<char>::empty());
        assert(seq!['{'] + space0 + Seq::<char>::empty() + seq!['}'] =~= s.subrange(i, j + 1));
    } else {
        lemma_object_lower_parts(s, i);
        lemma_object_members_round_trip(s, i, vs);
    }
}

#[verifier::rlimit(100)]
#[verifier::spinoff_prover]
proof fn lemma_object_members_round_trip(s: Seq<char>, i: int, vs: Seq<(String, Value)>)
    requires
        object_spec(s, i) is Ok,
        plain(s, i, object_spec(s, i)->Ok_0.1),
        !(run_end(s, i + 1, CharClass::Whitespace) < s.len() && s[run_end(s, i + 1, CharClass::Whitespace)] == '}'),
        member_lower(s, run_end(s, i + 1, CharClass::Whitespace)),
        object_element_spec(s, run_end(s, i + 1, CharClass::Whitespace)) is Ok,
        object_rest_lower(s, object_element_spec(s, run_end(s, i + 1, CharClass::Whitespace))->Ok_0.1),
    ensures
        json_text(object_spec(s, i)->Ok_0.0, vs) == Ok::<Seq<char>, (SourceInfo, Seq<char>)>(s.subrange(i, object_spec(s, i)->Ok_0.1)),
    decreases s.len() - i, 0int,
{
    lemma_object_bounds(s, i);
    lemma_run_end_bounds(s, i + 1, CharClass::Whitespace);
    let j = run_end(s, i + 1, CharClass::Whitespace);
    let space0 = s.subrange(i + 1, j);
    let (e1, k) = object_element_spec(s, j)->Ok_0;
    let end = object_spec(s, i)->Ok_0.1;
    lemma_object_rest_bounds(s, k, seq![e1], space0);
    lemma_plain_sub(s, i, end, j, k);
    lemma_object_element_round_trip(s, j, vs);
    let x = member_text(e1, json_text(e1.value, vs)->Ok_0);
    lemma_member_texts_push(Seq::empty(), e1, vs);
    assert(Seq::<ObjectElementModel>::empty().push(e1) =~= seq![e1]);
    assert(Seq::<Seq<char>>::empty().push(x) =~= seq![x]);
    assert(join(seq![x], seq![',']) == x);
    assert(seq!['{'] + space0 + x =~= s.subrange(i, k));
    lemma_object_rest_round_trip(s, k, seq![e1], space0, i, seq![x], vs);
}

#[verifier::spinoff_prover]
proof fn lemma_object_rest_round_trip(
    s: Seq<char>,
    i: int,
    acc: Seq<ObjectElementModel>,
    space0: Seq<char>,
    start: int,
    ts: Seq<Seq<char>>,
    vs: Seq<(String, Value)>,
)
    requires
        0 <= start < i <= s.len(),
        object_rest_spec(s, i, acc, space0) is Ok,
        plain(s, start, object_rest_spec(s, i, acc, space0)->Ok_0.1),
        object_rest_lower(s, i),
        member_texts(acc, vs) == Ok::<Seq<Seq<char>>, (SourceInfo, Seq<char>)>(ts),
        ts.len() > 0,
        s.subrange(start, i) == seq!['{'] + space0 + join(ts, seq![',']),
    ensures
        json_text(object_rest_spec(s, i, acc, space0)->Ok_0.0, vs) == Ok::<Seq<char>, (SourceInfo, Seq<char>)>(
            s.subrange(start, object_rest_spec(s, i, acc, space0)->Ok_0.1),
        ),
    decreases s.len() - i, 0int,
{
    reveal_with_fuel(object_rest_lower, 1);
    lemma_object_rest_bounds(s, i, acc, space0);
    let end = object_rest_spec(s, i, acc, space0)->Ok_0.1;
    if 0 <= i < s.len() && s[i] == '}' {
        assert(s.subrange(start, i) + seq!['}'] =~= s.subrange(start, i + 1));
    } else {
        let (e, k) = object_element_spec(s, i + 1)->Ok_0;
        lemma_object_rest_bounds(s, k, acc.push(e), space0);
        lemma_plain_sub(s, start, end, i + 1, k);
        lemma_object_element_round_trip(s, i + 1, vs);
        let x = member_text(e, json_text(e.value, vs)->Ok_0);
        lemma_member_texts_push(acc, e, vs);
        lemma_rest_step(s, start, i, k, '{', space0, ts, x);
        lemma_object_rest_round_trip(s, k, acc.push(e), space0, start, ts.push(x), vs);
    }
}

/// A JSON value read from a text that has no backslash escape and no `{{`, and none of
/// whose numbers writes its exponent with an upper-case `E` (which is read back as `e`),
/// evaluates, whatever the variables, back to the very text it was read from, its
/// whitespace included.
pub proof fn law_json_round_trip(s: Seq<char>, i: int, vs: Seq<(String, Value)>)
    requires
        value_spec(s, i) is Ok,
        plain(s, i, value_spec(s, i)->Ok_0.1),
        value_lower(s, i),
    ensures
        json_text(value_spec(s, i)->Ok_0.0, vs) == Ok::<Seq<char>, (SourceInfo, Seq<char>)>(s.subrange(i, value_spec(s, i)->Ok_0.1)),
{
    lemma_value_round_trip(s, i, vs);
}


/// Each escape of a JSON string reads as the character it stands for, and the reader
/// moves past it: `\"` a double quote, `\\` a backslash, `\/` a slash, `\b` a backspace,
/// `\f` a form feed, `\n` a line feed, `\r` a carriage return, `\t` a tab.
pub proof fn law_escapes_decode(s: Seq<char>, i: int)
    requires
        0 <= i < s.len(),
    ensures
        s[i] == '"' ==> escape_spec(s, i) == Ok::<(char, int), ErrorModel>(('"', i + 1)),
        s[i] == '\\' ==> escape_spec(s, i) == Ok::<(char, int), ErrorModel>(('\\', i + 1)),
        s[i] == '/' ==> escape_spec(s, i) == Ok::<(char, int), ErrorModel>(('/', i + 1)),
        s[i] == 'b' ==> escape_spec(s, i) == Ok::<(char, int), ErrorModel>(('\x08', i + 1)),
        s[i] == 'f' ==> escape_spec(s, i) == Ok::<(char, int), ErrorModel>(('\x0c', i + 1)),
        s[i] == 'n' ==> escape_spec(s, i) == Ok::<(char, int), ErrorModel>(('\n', i + 1)),
        s[i] == 'r' ==> escape_spec(s, i) == Ok::<(char, int), ErrorModel>(('\r', i + 1)),
        s[i] == 't' ==> escape_spec(s, i) == Ok::<(char, int), ErrorModel>(('\t', i + 1)),
{
}

/// Reading back what the JSON writer writes for a character as a two-character escape
/// gives the character: the reader's escapes undo the writer's.
pub proof fn law_escape_undoes_writer(c: char, s: Seq<char>, i: int)
    requires
        char_text(c).len() == 2,
        char_text(c)[0] == '\\',
        0 <= i < s.len(),
        s[i] == char_text(c)[1],
    ensures
        escape_spec(s, i) == Ok::<(char, int), ErrorModel>((c, i + 1)),
{
    if !(c == '"' || c == '\\' || c == '\x08' || c == '\x0c' || c == '\n' || c == '\r' || c == '\t') {
        if crate::text::control(c) {
            assert(char_text(c).len() >= 2 + 4) by {
                assert(crate::serialize_json::pad4(crate::text::nat_hex(c as nat)).len() >= 4);
            }
        } else {
            assert(char_text(c).len() == 1);
        }
    }
}


/// A hexadecimal digit is worth its value: `0`-`9` zero to nine, `a`-`f` and `A`-`F` ten
/// to fifteen; no other character is a hexadecimal digit.
pub proof fn law_hex_digit_values(c: char)
    ensures
        ('0' <= c && c <= '9') ==> hex_value_of(c) == Some((c as u32 - '0' as u32) as u32),
        ('a' <= c && c <= 'f') ==> hex_value_of(c) == Some((c as u32 - 'a' as u32 + 10) as u32),
        ('A' <= c && c <= 'F') ==> hex_value_of(c) == Some((c as u32 - 'A' as u32 + 10) as u32),
        !(('0' <= c && c <= '9') || ('a' <= c && c <= 'f') || ('A' <= c && c <= 'F')) ==> hex_value_of(c) is None,
{
}

} // verus!
