use vstd::prelude::*;

use crate::common::{Pos, SourceInfo};
use crate::json::{
    json_type_name, lemma_list_models_push, lemma_object_models_push, list_models, object_models,
    JsonModel, ListElement, ListElementModel, ObjectElement, ObjectElementModel, Template,
    TemplateModel, Value,
};
use crate::parse_error::{Error, ErrorKind, ErrorModel, ParseError};
use crate::reader::{
    lemma_run_end_bounds, pos_at, run_end, CharClass, Reader, ReaderState,
};
use crate::template::{
    element_models, encoded_chars, templatize, templatize_spec, EncodedChar, EncodedString,
};
use crate::text::{char_of, append_str, chars_of, lemma_occurs_single, lit, occurs_at, push_char, slice_occurs_at, str_eq};

verus! {

// ----------------------------------------------------------------------------
// The grammar, as functions of the text `s` and the index `i` where parsing starts.
// ----------------------------------------------------------------------------

/// An error at index `i` of `s`.
pub open spec fn err_at(s: Seq<char>, i: int, recoverable: bool, inner: ErrorKind) -> ErrorModel {
    ErrorModel { pos: pos_at(s, i), recoverable, inner }
}

/// `null`.
pub open spec fn null_spec(s: Seq<char>, i: int) -> Result<(JsonModel, int), ErrorModel> {
    if occurs_at(s, "null"@, i) {
        Ok((JsonModel::Null, i + 4))
    } else {
        Err(err_at(s, i, true, ErrorKind::Expecting("null"@)))
    }
}

/// `true` or `false`.
pub open spec fn boolean_spec(s: Seq<char>, i: int) -> Result<(JsonModel, int), ErrorModel> {
    if occurs_at(s, "true"@, i) {
        Ok((JsonModel::Boolean(true), i + 4))
    } else if occurs_at(s, "false"@, i) {
        Ok((JsonModel::Boolean(false), i + 5))
    } else {
        Err(err_at(s, i, true, ErrorKind::Expecting("true|false"@)))
    }
}

/// The value of a hexadecimal digit.
pub open spec fn hex_value_of(c: char) -> Option<u32> {
    if '0' <= c && c <= '9' {
        Some((c as u32 - 48) as u32)
    } else if 'a' <= c && c <= 'f' {
        Some((c as u32 - 87) as u32)
    } else if 'A' <= c && c <= 'F' {
        Some((c as u32 - 55) as u32)
    } else {
        None
    }
}

/// The hexadecimal digit at index `i`.
pub open spec fn hex_digit_spec(s: Seq<char>, i: int) -> Result<u32, ErrorModel> {
    if 0 <= i < s.len() && hex_value_of(s[i]) is Some {
        Ok(hex_value_of(s[i])->0)
    } else {
        Err(err_at(s, i, false, ErrorKind::HexDigit))
    }
}

/// Four hexadecimal digits `d1 d2 d3 d4`, combined as `d1 * (16 ^ 3) + d2 * (16 ^ 2) + d3 * 16 + d4`
/// where `^` is the exclusive or of the digits' weights: `16 ^ 3` is 19 and `16 ^ 2` is 18.
pub open spec fn hex_value_spec(s: Seq<char>, i: int) -> Result<u32, ErrorModel> {
    match hex_digit_spec(s, i) {
        Err(e) => Err(e),
        Ok(d1) => match hex_digit_spec(s, i + 1) {
            Err(e) => Err(e),
            Ok(d2) => match hex_digit_spec(s, i + 2) {
                Err(e) => Err(e),
                Ok(d3) => match hex_digit_spec(s, i + 3) {
                    Err(e) => Err(e),
                    Ok(d4) => Ok((d1 * 19 + d2 * 18 + d3 * 16 + d4) as u32),
                },
            },
        },
    }
}

/// The character after `\u`, at index `i`.
pub open spec fn unicode_spec(s: Seq<char>, i: int) -> Result<(char, int), ErrorModel> {
    match hex_value_spec(s, i) {
        Err(e) => Err(e),
        Ok(v) => Ok((char_of(v), i + 4)),
    }
}

/// The character written after a backslash, which is at index `i - 1`.
pub open spec fn escape_spec(s: Seq<char>, i: int) -> Result<(char, int), ErrorModel> {
    if !(0 <= i < s.len()) {
        Err(err_at(s, i, false, ErrorKind::EscapeChar))
    } else {
        let c = s[i];
        if c == '"' {
            Ok(('"', i + 1))
        } else if c == '\\' {
            Ok(('\\', i + 1))
        } else if c == '/' {
            Ok(('/', i + 1))
        } else if c == 'b' {
            Ok(('\x08', i + 1))
        } else if c == 'n' {
            Ok(('\n', i + 1))
        } else if c == 'f' {
            Ok(('\x0c', i + 1))
        } else if c == 'r' {
            Ok(('\r', i + 1))
        } else if c == 't' {
            Ok(('\t', i + 1))
        } else if c == 'u' {
            unicode_spec(s, i + 1)
        } else {
            Err(err_at(s, i, false, ErrorKind::EscapeChar))
        }
    }
}

/// A character that must be escaped in a JSON string.
pub open spec fn forbidden_char(c: char) -> bool {
    c == '\\' || c == '\x08' || c == '\n' || c == '\x0c' || c == '\r' || c == '\t'
}

/// The character of a JSON string at index `i`, escaped or not, and the index after it.
pub open spec fn any_char_spec(s: Seq<char>, i: int) -> Result<(char, int), ErrorModel> {
    if 0 <= i < s.len() && s[i] == '\\' {
        escape_spec(s, i + 1)
    } else if !(0 <= i < s.len()) || forbidden_char(s[i]) {
        Err(err_at(s, i, true, ErrorKind::Expecting("char"@)))
    } else {
        Ok((s[i], i + 1))
    }
}

/// The characters of a JSON string from index `i` up to a quote or the end of the text,
/// after the characters `acc`, and the index where they stop.
pub open spec fn string_chars_spec(s: Seq<char>, i: int, acc: Seq<(char, Seq<char>, Pos)>) -> Result<(Seq<(char, Seq<char>, Pos)>, int), ErrorModel>
    decreases s.len() - i,
{
    if !(0 <= i < s.len()) || s[i] == '"' {
        Ok((acc, i))
    } else {
        match any_char_spec(s, i) {
            Err(e) => Err(e),
            Ok((c, k)) => if i < k <= s.len() {
                string_chars_spec(s, k, acc.push((c, s.subrange(i, k), pos_at(s, i))))
            } else {
                Ok((acc, i))
            },
        }
    }
}

/// A JSON string, whose content is a template.
pub open spec fn string_spec(s: Seq<char>, i: int) -> Result<(JsonModel, int), ErrorModel> {
    if !(0 <= i < s.len() && s[i] == '"') {
        Err(err_at(s, i, true, ErrorKind::Expecting("\""@)))
    } else {
        match string_chars_spec(s, i + 1, Seq::empty()) {
            Err(e) => Err(e),
            Ok((chars, j)) => if !(j < s.len() && s[j] == '"') {
                Err(err_at(s, j, false, ErrorKind::Expecting("\""@)))
            } else {
                match templatize_spec(chars, pos_at(s, j)) {
                    Err(e) => Err(e),
                    Ok(elements) => Ok((
                        JsonModel::String(TemplateModel {
                            quotes: true,
                            elements,
                            source_info: SourceInfo { start: pos_at(s, i + 1), end: pos_at(s, j) },
                        }),
                        j + 1,
                    )),
                }
            },
        }
    }
}

/// The exponent of a number, if any, after the text `prefix` of the number, at index `i`.
/// The exponent is written with a lower-case `e`.
pub open spec fn exponent_spec(s: Seq<char>, i: int, prefix: Seq<char>) -> (JsonModel, int) {
    if 0 <= i < s.len() && (s[i] == 'e' || s[i] == 'E') {
        let sign_end = if occurs_at(s, "-"@, i + 1) || occurs_at(s, "+"@, i + 1) { i + 2 } else { i + 1 };
        let d = run_end(s, sign_end, CharClass::Digit);
        (JsonModel::Number(prefix + seq!['e'] + s.subrange(i + 1, sign_end) + s.subrange(sign_end, d)), d)
    } else {
        (JsonModel::Number(prefix), i)
    }
}

/// A JSON number, kept as written (but for the case of its exponent letter).
pub open spec fn number_spec(s: Seq<char>, i: int) -> Result<(JsonModel, int), ErrorModel> {
    let j = if occurs_at(s, "-"@, i) { i + 1 } else { i };
    let sign = s.subrange(i, j);
    let d = run_end(s, j, CharClass::Digit);
    if !(occurs_at(s, "0"@, j)) && d == j {
        Err(err_at(s, i, true, ErrorKind::Expecting("number"@)))
    } else {
        let k = if occurs_at(s, "0"@, j) { j + 1 } else { d };
        let integer = s.subrange(j, k);
        if 0 <= k < s.len() && s[k] == '.' {
            let f = run_end(s, k + 1, CharClass::Digit);
            if f == k + 1 {
                Err(err_at(s, k + 1, false, ErrorKind::Expecting("digits"@)))
            } else {
                Ok(exponent_spec(s, f, sign + integer + s.subrange(k, f)))
            }
        } else {
            Ok(exponent_spec(s, k, sign + integer))
        }
    }
}

/// The first result when it succeeds or fails for good, else the second.
pub open spec fn or_else<T>(first: Result<T, ErrorModel>, second: Result<T, ErrorModel>) -> Result<T, ErrorModel> {
    match first {
        Err(e) => if e.recoverable { second } else { first },
        Ok(_) => first,
    }
}

/// A JSON value: null, boolean, string, number, list or object, tried in this order.
pub open spec fn value_spec(s: Seq<char>, i: int) -> Result<(JsonModel, int), ErrorModel>
    decreases s.len() - i, 2int,
{
    if !(0 <= i <= s.len()) {
        Err(err_at(s, i, true, ErrorKind::Json))
    } else {
        or_else(null_spec(s, i), or_else(boolean_spec(s, i), or_else(string_spec(s, i),
            or_else(number_spec(s, i), or_else(list_spec(s, i), object_spec(s, i))))))
    }
}

/// A JSON list.
pub open spec fn list_spec(s: Seq<char>, i: int) -> Result<(JsonModel, int), ErrorModel>
    decreases s.len() - i, 1int,
{
    if !(0 <= i < s.len() && s[i] == '[') {
        Err(err_at(s, i, true, ErrorKind::Expecting("["@)))
    } else {
        let j = run_end(s, i + 1, CharClass::Whitespace);
        let space0 = s.subrange(i + 1, j);
        proof { lemma_run_end_bounds(s, i + 1, CharClass::Whitespace); }
        if j < s.len() && s[j] == ']' {
            Ok((JsonModel::List { space0, elements: Seq::empty() }, j + 1))
        } else {
            match list_element_spec(s, j, None) {
                Err(e) => Err(e),
                Ok((e1, k)) => if j < k <= s.len() {
                    list_rest_spec(s, k, json_type_name(e1.value), seq![e1], space0)
                } else {
                    Err(err_at(s, k, false, ErrorKind::Json))
                },
            }
        }
    }
}

/// The rest of a JSON list, at index `i`, after the elements `acc` whose type is `t`.
pub open spec fn list_rest_spec(s: Seq<char>, i: int, t: Seq<char>, acc: Seq<ListElementModel>, space0: Seq<char>) -> Result<(JsonModel, int), ErrorModel>
    decreases s.len() - i, 0int,
{
    if 0 <= i < s.len() && s[i] == ']' {
        Ok((JsonModel::List { space0, elements: acc }, i + 1))
    } else if !(0 <= i < s.len() && s[i] == ',') {
        Err(err_at(s, i, false, ErrorKind::Expecting("]"@)))
    } else {
        match list_element_spec(s, i + 1, Some(t)) {
            Err(e) => Err(e),
            Ok((e, k)) => if i < k <= s.len() {
                list_rest_spec(s, k, t, acc.push(e), space0)
            } else {
                Err(err_at(s, k, false, ErrorKind::Json))
            },
        }
    }
}

/// An element of a JSON list, whose type must be `t` when there is one.
pub open spec fn list_element_spec(s: Seq<char>, i: int, t: Option<Seq<char>>) -> Result<(ListElementModel, int), ErrorModel>
    decreases s.len() - i, 3int,
{
    if !(0 <= i <= s.len()) {
        Err(err_at(s, i, false, ErrorKind::Json))
    } else {
        let j = run_end(s, i, CharClass::Whitespace);
        proof { lemma_run_end_bounds(s, i, CharClass::Whitespace); }
        match value_spec(s, j) {
            Err(_) => Err(err_at(s, i, false, ErrorKind::Json)),
            Ok((v, k)) => if t is Some && t->0 != json_type_name(v) {
                Err(err_at(s, j, false, ErrorKind::Expecting(t->0)))
            } else {
                let m = run_end(s, k, CharClass::Whitespace);
                Ok((ListElementModel { space0: s.subrange(i, j), value: v, space1: s.subrange(k, m) }, m))
            },
        }
    }
}

/// A JSON object.
pub open spec fn object_spec(s: Seq<char>, i: int) -> Result<(JsonModel, int), ErrorModel>
    decreases s.len() - i, 1int,
{
    if !(0 <= i < s.len() && s[i] == '{') {
        Err(err_at(s, i, true, ErrorKind::Expecting("{"@)))
    } else {
        let j = run_end(s, i + 1, CharClass::Whitespace);
        let space0 = s.subrange(i + 1, j);
        proof { lemma_run_end_bounds(s, i + 1, CharClass::Whitespace); }
        if j < s.len() && s[j] == '}' {
            Ok((JsonModel::Object { space0, elements: Seq::empty() }, j + 1))
        } else {
            match object_element_spec(s, j) {
                Err(e) => Err(e),
                Ok((e1, k)) => if j < k <= s.len() {
                    object_rest_spec(s, k, seq![e1], space0)
                } else {
                    Err(err_at(s, k, false, ErrorKind::Json))
                },
            }
        }
    }
}

/// The rest of a JSON object, at index `i`, after the members `acc`.
pub open spec fn object_rest_spec(s: Seq<char>, i: int, acc: Seq<ObjectElementModel>, space0: Seq<char>) -> Result<(JsonModel, int), ErrorModel>
    decreases s.len() - i, 0int,
{
    if 0 <= i < s.len() && s[i] == '}' {
        Ok((JsonModel::Object { space0, elements: acc }, i + 1))
    } else if !(0 <= i < s.len() && s[i] == ',') {
        Err(err_at(s, i, false, ErrorKind::Expecting("}"@)))
    } else {
        match object_element_spec(s, i + 1) {
            Err(e) => Err(e),
            Ok((e, k)) => if i < k <= s.len() {
                object_rest_spec(s, k, acc.push(e), space0)
            } else {
                Err(err_at(s, k, false, ErrorKind::Json))
            },
        }
    }
}

/// A member of a JSON object: a quoted key, a colon and a value.
pub open spec fn object_element_spec(s: Seq<char>, i: int) -> Result<(ObjectElementModel, int), ErrorModel>
    decreases s.len() - i, 3int,
{
    if !(0 <= i <= s.len()) {
        Err(err_at(s, i, false, ErrorKind::Json))
    } else {
        let j = run_end(s, i, CharClass::Whitespace);
        proof { lemma_run_end_bounds(s, i, CharClass::Whitespace); }
        if !(j < s.len() && s[j] == '"') {
            Err(err_at(s, j, false, ErrorKind::Expecting("\""@)))
        } else {
            let a = run_end(s, j + 1, CharClass::KeyChar);
            proof { lemma_run_end_bounds(s, j + 1, CharClass::KeyChar); }
            if a == j + 1 {
                Err(err_at(s, a, false, ErrorKind::Expecting("key"@)))
            } else if !(a < s.len() && s[a] == '"') {
                Err(err_at(s, a, false, ErrorKind::Expecting("\""@)))
            } else {
                let b = run_end(s, a + 1, CharClass::Whitespace);
                proof { lemma_run_end_bounds(s, a + 1, CharClass::Whitespace); }
                if !(b < s.len() && s[b] == ':') {
                    Err(err_at(s, b, false, ErrorKind::Expecting(":"@)))
                } else {
                    let c = run_end(s, b + 1, CharClass::Whitespace);
                    proof { lemma_run_end_bounds(s, b + 1, CharClass::Whitespace); }
                    match value_spec(s, c) {
                        Err(_) => Err(err_at(s, b + 1, false, ErrorKind::Json)),
                        Ok((v, d)) => {
                            let e = run_end(s, d, CharClass::Whitespace);
                            Ok((ObjectElementModel {
                                space0: s.subrange(i, j),
                                name: s.subrange(j + 1, a),
                                space1: s.subrange(a + 1, b),
                                space2: s.subrange(b + 1, c),
                                value: v,
                                space3: s.subrange(d, e),
                            }, e))
                        },
                    }
                }
            }
        }
    }
}

} // verus!

verus! {

// ----------------------------------------------------------------------------
// The parser.
// ----------------------------------------------------------------------------

/// `r` is what the grammar gives, `spec`, and the reader stopped at `cursor` on success.
pub open spec fn follows<T: View>(r: Result<T, Error>, spec: Result<(T::V, int), ErrorModel>, cursor: int) -> bool {
    match spec {
        Ok((m, k)) => r matches Ok(v) && v@ == m && cursor == k,
        Err(e) => r matches Err(x) && x@ == e,
    }
}

/// Reads the text `t`, or fails (recoverably) without reading anything.
pub fn try_literal(t: &str, reader: &mut Reader) -> (r: Result<(), Error>)
    requires
        old(reader).anchored(),
    ensures
        final(reader).anchored(),
        final(reader).buffer == old(reader).buffer,
        occurs_at(old(reader).buffer@, t@, old(reader).state.cursor as int) ==> r is Ok
            && final(reader).state.cursor == old(reader).state.cursor + t@.len(),
        !occurs_at(old(reader).buffer@, t@, old(reader).state.cursor as int) ==> (r matches Err(e)
            && e@ == err_at(old(reader).buffer@, old(reader).state.cursor as int, true, ErrorKind::Expecting(t@))
            && final(reader).state == old(reader).state),
{
    let tv = chars_of(t);
    if slice_occurs_at(reader.buffer.as_slice(), tv.as_slice(), reader.state.cursor) {
        let ghost c0 = reader.state.cursor;
        let mut k: usize = 0;
        while k < tv.len()
            invariant
                reader.anchored(),
                reader.buffer == old(reader).buffer,
                c0 == old(reader).state.cursor,
                k <= tv.len(),
                c0 + tv.len() <= reader.buffer@.len(),
                reader.state.cursor == c0 + k,
            decreases tv.len() - k,
        {
            let _ = reader.read_char();
            k += 1;
        }
        Ok(())
    } else {
        Err(Error { pos: reader.state.pos, recoverable: true, inner: ParseError::Expecting { value: lit(t) } })
    }
}

/// Reads the text `t`, or fails for good without reading anything.
pub fn literal(t: &str, reader: &mut Reader) -> (r: Result<(), Error>)
    requires
        old(reader).anchored(),
    ensures
        final(reader).anchored(),
        final(reader).buffer == old(reader).buffer,
        occurs_at(old(reader).buffer@, t@, old(reader).state.cursor as int) ==> r is Ok
            && final(reader).state.cursor == old(reader).state.cursor + t@.len(),
        !occurs_at(old(reader).buffer@, t@, old(reader).state.cursor as int) ==> (r matches Err(e)
            && e@ == err_at(old(reader).buffer@, old(reader).state.cursor as int, false, ErrorKind::Expecting(t@))),
{
    match try_literal(t, reader) {
        Ok(()) => Ok(()),
        Err(e) => Err(Error { pos: e.pos, recoverable: false, inner: e.inner }),
    }
}

/// `true` or `false`.
pub fn boolean(reader: &mut Reader) -> (r: Result<bool, Error>)
    requires
        old(reader).anchored(),
    ensures
        final(reader).anchored(),
        final(reader).buffer == old(reader).buffer,
        match boolean_spec(old(reader).buffer@, old(reader).state.cursor as int) {
            Ok((m, k)) => r matches Ok(b) && m == JsonModel::Boolean(b) && final(reader).state.cursor == k,
            Err(e) => r matches Err(x) && x@ == e,
        },
{
    proof {
        reveal_strlit("true");
        reveal_strlit("false");
    }
    if try_literal("true", reader).is_ok() {
        return Ok(true);
    }
    if try_literal("false", reader).is_ok() {
        return Ok(false);
    }
    Err(Error { pos: reader.state.pos, recoverable: true, inner: ParseError::Expecting { value: lit("true|false") } })
}

/// The JSON value `null`.
pub fn null_value(reader: &mut Reader) -> (r: Result<Value, Error>)
    requires
        old(reader).anchored(),
    ensures
        final(reader).anchored(),
        final(reader).buffer == old(reader).buffer,
        follows(r, null_spec(old(reader).buffer@, old(reader).state.cursor as int), final(reader).state.cursor as int),
{
    proof { reveal_strlit("null"); }
    match try_literal("null", reader) {
        Ok(()) => Ok(Value::Null {}),
        Err(e) => Err(e),
    }
}

/// The JSON value `true` or `false`.
pub fn boolean_value(reader: &mut Reader) -> (r: Result<Value, Error>)
    requires
        old(reader).anchored(),
    ensures
        final(reader).anchored(),
        final(reader).buffer == old(reader).buffer,
        follows(r, boolean_spec(old(reader).buffer@, old(reader).state.cursor as int), final(reader).state.cursor as int),
{
    match boolean(reader) {
        Ok(b) => Ok(Value::Boolean(b)),
        Err(e) => Err(e),
    }
}

/// A hexadecimal digit; fails recoverably, at the digit, on anything else.
pub fn hex_digit(reader: &mut Reader) -> (r: Result<u32, Error>)
    requires
        old(reader).anchored(),
    ensures
        final(reader).anchored(),
        final(reader).buffer == old(reader).buffer,
        match hex_digit_spec(old(reader).buffer@, old(reader).state.cursor as int) {
            Ok(d) => r == Ok::<u32, Error>(d) && final(reader).state.cursor == old(reader).state.cursor + 1,
            Err(e) => r matches Err(x) && x.pos == e.pos && x.recoverable && x.inner == ParseError::HexDigit,
        },
{
    let start = reader.cursor();
    match reader.read_char() {
        Some(c) => {
            if '0' <= c && c <= '9' {
                Ok((c as u32) - 48)
            } else if 'a' <= c && c <= 'f' {
                Ok((c as u32) - 87)
            } else if 'A' <= c && c <= 'F' {
                Ok((c as u32) - 55)
            } else {
                Err(Error { pos: start.pos, recoverable: true, inner: ParseError::HexDigit })
            }
        },
        None => Err(Error { pos: start.pos, recoverable: true, inner: ParseError::HexDigit }),
    }
}

fn hex_digit_nonrecover(reader: &mut Reader) -> (r: Result<u32, Error>)
    requires
        old(reader).anchored(),
    ensures
        final(reader).anchored(),
        final(reader).buffer == old(reader).buffer,
        match hex_digit_spec(old(reader).buffer@, old(reader).state.cursor as int) {
            Ok(d) => r == Ok::<u32, Error>(d) && final(reader).state.cursor == old(reader).state.cursor + 1,
            Err(e) => r matches Err(x) && x@ == e,
        },
{
    match hex_digit(reader) {
        Ok(d) => Ok(d),
        Err(e) => Err(Error { pos: e.pos, recoverable: false, inner: e.inner }),
    }
}

/// Four hexadecimal digits.
pub fn hex_value(reader: &mut Reader) -> (r: Result<u32, Error>)
    requires
        old(reader).anchored(),
    ensures
        final(reader).anchored(),
        final(reader).buffer == old(reader).buffer,
        match hex_value_spec(old(reader).buffer@, old(reader).state.cursor as int) {
            Ok(v) => r == Ok::<u32, Error>(v) && final(reader).state.cursor == old(reader).state.cursor + 4,
            Err(e) => r matches Err(x) && x@ == e,
        },
{
    let digit1 = match hex_digit_nonrecover(reader) { Ok(d) => d, Err(e) => { return Err(e); } };
    let digit2 = match hex_digit_nonrecover(reader) { Ok(d) => d, Err(e) => { return Err(e); } };
    let digit3 = match hex_digit_nonrecover(reader) { Ok(d) => d, Err(e) => { return Err(e); } };
    let digit4 = match hex_digit_nonrecover(reader) { Ok(d) => d, Err(e) => { return Err(e); } };
    assert((16u32 ^ 3u32) == 19u32) by (bit_vector);
    assert((16u32 ^ 2u32) == 18u32) by (bit_vector);
    let w3: u32 = 16 ^ 3;
    let w2: u32 = 16 ^ 2;
    let value = digit1 * w3 + digit2 * w2 + digit3 * 16 + digit4;
    Ok(value)
}

/// The character written `\uXXXX`, after the `\u`.
pub fn unicode(reader: &mut Reader) -> (r: Result<char, Error>)
    requires
        old(reader).anchored(),
    ensures
        final(reader).anchored(),
        final(reader).buffer == old(reader).buffer,
        match unicode_spec(old(reader).buffer@, old(reader).state.cursor as int) {
            Ok((c, k)) => r == Ok::<char, Error>(c) && final(reader).state.cursor == k,
            Err(e) => r matches Err(x) && x@ == e,
        },
{
    let v = match hex_value(reader) { Ok(v) => v, Err(e) => { return Err(e); } };
    assert(v <= 810);
    match crate::text::char_from_u32(v) {
        None => Err(Error { pos: reader.state.pos, recoverable: false, inner: ParseError::Unicode {} }),
        Some(c) => {
            Ok(c)
        },
    }
}

/// An escaped character: a backslash and what follows.
pub fn escape_char(reader: &mut Reader) -> (r: Result<char, Error>)
    requires
        old(reader).anchored(),
    ensures
        final(reader).anchored(),
        final(reader).buffer == old(reader).buffer,
        ({
            let s = old(reader).buffer@;
            let i = old(reader).state.cursor as int;
            if i < s.len() && s[i] == '\\' {
                match escape_spec(s, i + 1) {
                    Ok((c, k)) => r == Ok::<char, Error>(c) && final(reader).state.cursor == k,
                    Err(e) => r matches Err(x) && x@ == e,
                }
            } else {
                r matches Err(x) && x@ == err_at(s, i, true, ErrorKind::Expecting("\\"@))
                    && final(reader).state == old(reader).state
            }
        }),
{
    proof {
        reveal_strlit("\\");
        assert("\\"@ =~= seq!['\\']);
        lemma_occurs_single(old(reader).buffer@, '\\', old(reader).state.cursor as int);
    }
    match try_literal("\\", reader) {
        Ok(()) => {},
        Err(e) => { return Err(e); },
    }
    let start = reader.cursor();
    match reader.read_char() {
        Some('"') => Ok('"'),
        Some('\\') => Ok('\\'),
        Some('/') => Ok('/'),
        Some('b') => Ok('\x08'),
        Some('n') => Ok('\n'),
        Some('f') => Ok('\x0c'),
        Some('r') => Ok('\r'),
        Some('t') => Ok('\t'),
        Some('u') => unicode(reader),
        _ => Err(Error { pos: start.pos, recoverable: false, inner: ParseError::EscapeChar {} }),
    }
}

} // verus!

verus! {

pub proof fn lemma_encoded_chars_push(v: Seq<EncodedChar>, x: EncodedChar)
    ensures
        encoded_chars(v.push(x)) == encoded_chars(v).push((x.0, x.1@, x.2)),
{
    assert(encoded_chars(v.push(x)) =~= encoded_chars(v).push((x.0, x.1@, x.2)));
}

/// A character of a JSON string, escaped or not: the character, the text it was written
/// as, and its position.
pub fn any_char(reader: &mut Reader) -> (r: Result<EncodedChar, Error>)
    requires
        old(reader).anchored(),
    ensures
        final(reader).anchored(),
        final(reader).buffer == old(reader).buffer,
        r is Ok ==> final(reader).state.cursor > old(reader).state.cursor,
        match any_char_spec(old(reader).buffer@, old(reader).state.cursor as int) {
            Ok((c, k)) => r matches Ok(x) && x.0 == c
                && x.1@ == old(reader).buffer@.subrange(old(reader).state.cursor as int, k)
                && x.2 == pos_at(old(reader).buffer@, old(reader).state.cursor as int)
                && final(reader).state.cursor == k,
            Err(e) => r matches Err(x) && x@ == e,
        },
{
    let start = reader.cursor();
    match escape_char(reader) {
        Ok(c) => {
            let raw = reader.from(start.cursor);
            Ok((c, raw, start.pos))
        },
        Err(e) => {
            if e.recoverable {
                reader.seek(start);
                match reader.read_char() {
                    None => Err(Error { pos: start.pos, recoverable: true, inner: ParseError::Expecting { value: lit("char") } }),
                    Some(c) => {
                        if c == '\\' || c == '\x08' || c == '\n' || c == '\x0c' || c == '\r' || c == '\t' {
                            Err(Error { pos: start.pos, recoverable: true, inner: ParseError::Expecting { value: lit("char") } })
                        } else {
                            let raw = reader.from(start.cursor);
                            Ok((c, raw, start.pos))
                        }
                    },
                }
            } else {
                Err(e)
            }
        },
    }
}

/// A JSON string; its content is a template.
pub fn string_value(reader: &mut Reader) -> (r: Result<Value, Error>)
    requires
        old(reader).anchored(),
    ensures
        final(reader).anchored(),
        final(reader).buffer == old(reader).buffer,
        r is Ok ==> final(reader).state.cursor > old(reader).state.cursor,
        follows(r, string_spec(old(reader).buffer@, old(reader).state.cursor as int), final(reader).state.cursor as int),
{
    let ghost s = reader.buffer@;
    let ghost i = reader.state.cursor as int;
    proof {
        reveal_strlit("\"");
        assert("\""@ =~= seq!['"']);
        lemma_occurs_single(s, '"', i);
    }
    match try_literal("\"", reader) {
        Ok(()) => {},
        Err(e) => { return Err(e); },
    }
    let start = reader.state.pos;
    let mut chars: Vec<EncodedChar> = Vec::new();
    assert(encoded_chars(chars@) =~= Seq::<(char, Seq<char>, Pos)>::empty());
    loop
        invariant
            reader.anchored(),
            reader.buffer == old(reader).buffer,
            reader.buffer@ == s,
            s == old(reader).buffer@,
            i == old(reader).state.cursor,
            0 <= i < s.len(),
            s[i] == '"',
            i + 1 <= reader.state.cursor <= s.len(),
            string_chars_spec(s, i + 1, Seq::empty()) == string_chars_spec(s, reader.state.cursor as int, encoded_chars(chars@)),
        ensures
            reader.state.cursor == s.len() || s[reader.state.cursor as int] == '"',
        decreases s.len() - reader.state.cursor,
    {
        if reader.next_is('"') || reader.is_eof() {
            break;
        }
        let ghost cur = reader.state.cursor as int;
        let ghost acc = encoded_chars(chars@);
        let c = match any_char(reader) {
            Ok(c) => c,
            Err(e) => {
                return Err(e);
            },
        };
        proof { lemma_encoded_chars_push(chars@, c); }
        chars.push(c);
    }
    let end = reader.state.pos;
    proof {
        lemma_occurs_single(s, '"', reader.state.cursor as int);
    }
    match literal("\"", reader) {
        Ok(()) => {},
        Err(e) => { return Err(e); },
    }
    let encoded_string = EncodedString { source_info: SourceInfo { start, end }, chars };
    let elements = match templatize(encoded_string) {
        Ok(elements) => elements,
        Err(e) => { return Err(e); },
    };
    Ok(Value::String(Template { quotes: true, elements, source_info: SourceInfo { start, end } }))
}

/// Reads whitespace: spaces, tabs, newlines and carriage returns.
pub fn whitespace(reader: &mut Reader) -> (s: String)
    requires
        old(reader).anchored(),
    ensures
        final(reader).anchored(),
        final(reader).buffer == old(reader).buffer,
        final(reader).state.cursor == run_end(old(reader).buffer@, old(reader).state.cursor as int, CharClass::Whitespace),
        old(reader).state.cursor <= final(reader).state.cursor,
        s@ == old(reader).buffer@.subrange(old(reader).state.cursor as int, final(reader).state.cursor as int),
{
    reader.read_run(CharClass::Whitespace)
}

/// The key of an object member: alphanumeric characters, `@`, `.`, `_` and `-`.
pub fn key(reader: &mut Reader) -> (r: Result<String, Error>)
    requires
        old(reader).anchored(),
    ensures
        final(reader).anchored(),
        final(reader).buffer == old(reader).buffer,
        ({
            let s = old(reader).buffer@;
            let i = old(reader).state.cursor as int;
            let a = run_end(s, i, CharClass::KeyChar);
            if a == i {
                r matches Err(x) && x@ == err_at(s, i, false, ErrorKind::Expecting("key"@))
            } else {
                r matches Ok(k) && k@ == s.subrange(i, a) && final(reader).state.cursor == a
            }
        }),
        old(reader).state.cursor <= final(reader).state.cursor,
{
    let s = reader.read_run(CharClass::KeyChar);
    if s.as_str().is_empty() {
        Err(Error { pos: reader.state.pos, recoverable: false, inner: ParseError::Expecting { value: lit("key") } })
    } else {
        Ok(s)
    }
}

/// The exponent of a number, if any, appended to the text `number` read so far.
fn exponent(reader: &mut Reader, number: String) -> (r: Value)
    requires
        old(reader).anchored(),
    ensures
        final(reader).anchored(),
        final(reader).buffer == old(reader).buffer,
        old(reader).state.cursor <= final(reader).state.cursor,
        (r@, final(reader).state.cursor as int) == exponent_spec(old(reader).buffer@, old(reader).state.cursor as int, number@),
{
    let ghost s = reader.buffer@;
    let ghost m = reader.state.cursor as int;
    let ghost prefix = number@;
    let mut number = number;
    if reader.next_is('e') || reader.next_is('E') {
        let _ = reader.read_char();
        proof {
            reveal_strlit("-");
            reveal_strlit("+");
            assert("-"@ =~= seq!['-']);
            assert("+"@ =~= seq!['+']);
            lemma_occurs_single(s, '-', m + 1);
            lemma_occurs_single(s, '+', m + 1);
        }
        push_char(&mut number, 'e');
        match try_literal("-", reader) {
            Ok(_) => { push_char(&mut number, '-'); },
            Err(_) => match try_literal("+", reader) {
                Ok(_) => { push_char(&mut number, '+'); },
                Err(_) => {},
            },
        }
        let ghost sign_end = reader.state.cursor as int;
        assert(number@ =~= prefix + seq!['e'] + s.subrange(m + 1, sign_end));
        let digits = reader.read_run(CharClass::Digit);
        append_str(&mut number, digits.as_str());
    }
    Value::Number(number)
}

/// The sign and the integer part of a number.
fn integer_part(reader: &mut Reader) -> (r: Result<String, Error>)
    requires
        old(reader).anchored(),
    ensures
        final(reader).anchored(),
        final(reader).buffer == old(reader).buffer,
        ({
            let s = old(reader).buffer@;
            let i = old(reader).state.cursor as int;
            let j = if occurs_at(s, "-"@, i) { i + 1 } else { i };
            let d = run_end(s, j, CharClass::Digit);
            if !(occurs_at(s, "0"@, j)) && d == j {
                r matches Err(x) && x@ == err_at(s, i, true, ErrorKind::Expecting("number"@))
            } else {
                let k = if occurs_at(s, "0"@, j) { j + 1 } else { d };
                r matches Ok(n) && n@ == s.subrange(i, k) && final(reader).state.cursor == k && k > i
            }
        }),
{
    let ghost s = reader.buffer@;
    let ghost i = reader.state.cursor as int;
    let start = reader.state.pos;
    proof {
        reveal_strlit("-");
        reveal_strlit("0");
        assert("-"@ =~= seq!['-']);
        assert("0"@ =~= seq!['0']);
        lemma_occurs_single(s, '-', i);
    }
    let mut number = match try_literal("-", reader) {
        Err(_) => String::new(),
        Ok(_) => lit("-"),
    };
    let ghost j = reader.state.cursor as int;
    assert(number@ =~= s.subrange(i, j));
    proof { lemma_occurs_single(s, '0', j); }
    match try_literal("0", reader) {
        Err(_) => {
            let digits = reader.read_run(CharClass::Digit);
            if digits.as_str().is_empty() {
                return Err(Error { pos: start, recoverable: true, inner: ParseError::Expecting { value: lit("number") } });
            }
            append_str(&mut number, digits.as_str());
        },
        Ok(_) => {
            push_char(&mut number, '0');
        },
    }
    let ghost k = reader.state.cursor as int;
    assert(number@ =~= s.subrange(i, k));
    Ok(number)
}

/// A JSON number, kept as written (with a lower-case exponent letter).
pub fn number_value(reader: &mut Reader) -> (r: Result<Value, Error>)
    requires
        old(reader).anchored(),
    ensures
        final(reader).anchored(),
        final(reader).buffer == old(reader).buffer,
        r is Ok ==> final(reader).state.cursor > old(reader).state.cursor,
        follows(r, number_spec(old(reader).buffer@, old(reader).state.cursor as int), final(reader).state.cursor as int),
{
    let ghost s = reader.buffer@;
    let ghost i = reader.state.cursor as int;
    let mut number = match integer_part(reader) {
        Ok(n) => n,
        Err(e) => { return Err(e); },
    };
    let ghost k = reader.state.cursor as int;
    proof {
        reveal_strlit(".");
        assert("."@ =~= seq!['.']);
        lemma_occurs_single(s, '.', k);
        let j = if occurs_at(s, "-"@, i) { i + 1 } else { i };
        assert(s.subrange(i, k) == s.subrange(i, j) + s.subrange(j, k));
    }
    match try_literal(".", reader) {
        Ok(_) => {
            let digits = reader.read_run(CharClass::Digit);
            if digits.as_str().is_empty() {
                return Err(Error { pos: reader.state.pos, recoverable: false, inner: ParseError::Expecting { value: lit("digits") } });
            }
            push_char(&mut number, '.');
            append_str(&mut number, digits.as_str());
            assert(s.subrange(k, reader.state.cursor as int) =~= seq!['.'] + digits@);
            assert(number@ =~= s.subrange(i, k) + s.subrange(k, reader.state.cursor as int));
        },
        Err(_) => {},
    }
    Ok(exponent(reader, number))
}

} // verus!

verus! {

/// The mathematical content of an optional type name.
pub open spec fn type_view(t: Option<String>) -> Option<Seq<char>> {
    match t {
        Some(x) => Some(x@),
        None => None,
    }
}

/// A JSON value: null, a boolean, a string, a number, a list or an object.
pub fn parse(reader: &mut Reader) -> (r: Result<Value, Error>)
    requires
        old(reader).anchored(),
    ensures
        final(reader).anchored(),
        final(reader).buffer == old(reader).buffer,
        r is Ok ==> final(reader).state.cursor > old(reader).state.cursor,
        follows(r, value_spec(old(reader).buffer@, old(reader).state.cursor as int), final(reader).state.cursor as int),
    decreases old(reader).buffer@.len() - old(reader).state.cursor, 2int,
{
    let save = reader.cursor();
    match null_value(reader) {
        Ok(v) => { return Ok(v); },
        Err(e) => if !e.recoverable { return Err(e); },
    }
    reader.seek(save);
    match boolean_value(reader) {
        Ok(v) => { return Ok(v); },
        Err(e) => if !e.recoverable { return Err(e); },
    }
    reader.seek(save);
    match string_value(reader) {
        Ok(v) => { return Ok(v); },
        Err(e) => if !e.recoverable { return Err(e); },
    }
    reader.seek(save);
    match number_value(reader) {
        Ok(v) => { return Ok(v); },
        Err(e) => if !e.recoverable { return Err(e); },
    }
    reader.seek(save);
    match list_value(reader) {
        Ok(v) => { return Ok(v); },
        Err(e) => if !e.recoverable { return Err(e); },
    }
    reader.seek(save);
    object_value(reader)
}

/// A JSON list.
pub fn list_value(reader: &mut Reader) -> (r: Result<Value, Error>)
    requires
        old(reader).anchored(),
    ensures
        final(reader).anchored(),
        final(reader).buffer == old(reader).buffer,
        r is Ok ==> final(reader).state.cursor > old(reader).state.cursor,
        follows(r, list_spec(old(reader).buffer@, old(reader).state.cursor as int), final(reader).state.cursor as int),
    decreases old(reader).buffer@.len() - old(reader).state.cursor, 1int,
{
    let ghost s = reader.buffer@;
    let ghost i = reader.state.cursor as int;
    proof {
        reveal_strlit("[");
        reveal_strlit("]");
        reveal_strlit(",");
        assert("["@ =~= seq!['[']);
        assert("]"@ =~= seq![']']);
        assert(","@ =~= seq![',']);
        lemma_occurs_single(s, '[', i);
    }
    match try_literal("[", reader) {
        Ok(()) => {},
        Err(e) => { return Err(e); },
    }
    let space0 = whitespace(reader);
    let mut elements: Vec<ListElement> = Vec::new();
    assert(list_models(elements@) =~= Seq::<ListElementModel>::empty());
    if !reader.next_is(']') {
        let first = match list_element(None, reader) {
            Ok(e) => e,
            Err(e) => { return Err(e); },
        };
        let t = first.value._type();
        proof { lemma_list_models_push(elements@, first); }
        elements.push(first);
        assert(list_models(elements@) =~= seq![elements@[0]@]);
        loop
            invariant
                reader.anchored(),
                reader.buffer == old(reader).buffer,
                s == old(reader).buffer@,
                i == old(reader).state.cursor,
                0 <= i < s.len(),
                s[i] == '[',
                i < reader.state.cursor <= s.len(),
                list_spec(s, i) == list_rest_spec(s, reader.state.cursor as int, t@, list_models(elements@), space0@),
            ensures
                (reader.state.cursor < s.len() && s[reader.state.cursor as int] == ']')
                    || !(reader.state.cursor < s.len() && s[reader.state.cursor as int] == ','),
            decreases s.len() - reader.state.cursor,
        {
            if reader.next_is(']') {
                break;
            }
            if !reader.next_is(',') {
                break;
            }
            proof {
                reveal_strlit(",");
                assert(","@ =~= seq![',']);
                lemma_occurs_single(s, ',', reader.state.cursor as int);
            }
            match literal(",", reader) {
                Ok(()) => {},
                Err(e) => { return Err(e); },
            }
            let element = match list_element(Some(t.clone()), reader) {
                Ok(e) => e,
                Err(e) => { return Err(e); },
            };
            proof { lemma_list_models_push(elements@, element); }
            elements.push(element);
        }
    }
    proof {
        reveal_strlit("]");
        assert("]"@ =~= seq![']']);
        lemma_occurs_single(s, ']', reader.state.cursor as int);
    }
    match literal("]", reader) {
        Ok(()) => {},
        Err(e) => { return Err(e); },
    }
    Ok(Value::List { space0, elements })
}

/// An element of a JSON list, whose type must be `_type` when there is one.
pub fn list_element(_type: Option<String>, reader: &mut Reader) -> (r: Result<ListElement, Error>)
    requires
        old(reader).anchored(),
    ensures
        final(reader).anchored(),
        final(reader).buffer == old(reader).buffer,
        r is Ok ==> final(reader).state.cursor > old(reader).state.cursor,
        follows(r, list_element_spec(old(reader).buffer@, old(reader).state.cursor as int, type_view(_type)), final(reader).state.cursor as int),
    decreases old(reader).buffer@.len() - old(reader).state.cursor, 3int,
{
    let save = reader.state.pos;
    let space0 = whitespace(reader);
    let pos = reader.state.pos;
    let value = match parse(reader) {
        Ok(r) => r,
        Err(_) => {
            return Err(Error { pos: save, recoverable: false, inner: ParseError::Json {} });
        },
    };
    match _type {
        Some(t) => {
            let vt = value._type();
            if !str_eq(t.as_str(), vt.as_str()) {
                return Err(Error { pos, recoverable: false, inner: ParseError::Expecting { value: t } });
            }
        },
        None => {},
    }
    let space1 = whitespace(reader);
    Ok(ListElement { space0, value, space1 })
}

/// A JSON object.
pub fn object_value(reader: &mut Reader) -> (r: Result<Value, Error>)
    requires
        old(reader).anchored(),
    ensures
        final(reader).anchored(),
        final(reader).buffer == old(reader).buffer,
        r is Ok ==> final(reader).state.cursor > old(reader).state.cursor,
        follows(r, object_spec(old(reader).buffer@, old(reader).state.cursor as int), final(reader).state.cursor as int),
    decreases old(reader).buffer@.len() - old(reader).state.cursor, 1int,
{
    let ghost s = reader.buffer@;
    let ghost i = reader.state.cursor as int;
    proof {
        reveal_strlit("{");
        reveal_strlit("}");
        reveal_strlit(",");
        assert("{"@ =~= seq!['{']);
        assert("}"@ =~= seq!['}']);
        assert(","@ =~= seq![',']);
        lemma_occurs_single(s, '{', i);
    }
    match try_literal("{", reader) {
        Ok(()) => {},
        Err(e) => { return Err(e); },
    }
    let space0 = whitespace(reader);
    let mut elements: Vec<ObjectElement> = Vec::new();
    assert(object_models(elements@) =~= Seq::<ObjectElementModel>::empty());
    if !reader.next_is('}') {
        let first = match object_element(reader) {
            Ok(e) => e,
            Err(e) => { return Err(e); },
        };
        proof { lemma_object_models_push(elements@, first); }
        elements.push(first);
        assert(object_models(elements@) =~= seq![elements@[0]@]);
        loop
            invariant
                reader.anchored(),
                reader.buffer == old(reader).buffer,
                s == old(reader).buffer@,
                i == old(reader).state.cursor,
                0 <= i < s.len(),
                s[i] == '{',
                i < reader.state.cursor <= s.len(),
                object_spec(s, i) == object_rest_spec(s, reader.state.cursor as int, object_models(elements@), space0@),
            ensures
                (reader.state.cursor < s.len() && s[reader.state.cursor as int] == '}')
                    || !(reader.state.cursor < s.len() && s[reader.state.cursor as int] == ','),
            decreases s.len() - reader.state.cursor,
        {
            if reader.next_is('}') {
                break;
            }
            if !reader.next_is(',') {
                break;
            }
            proof {
                reveal_strlit(",");
                assert(","@ =~= seq![',']);
                lemma_occurs_single(s, ',', reader.state.cursor as int);
            }
            match literal(",", reader) {
                Ok(()) => {},
                Err(e) => { return Err(e); },
            }
            let element = match object_element(reader) {
                Ok(e) => e,
                Err(e) => { return Err(e); },
            };
            proof { lemma_object_models_push(elements@, element); }
            elements.push(element);
        }
    }
    proof {
        reveal_strlit("}");
        assert("}"@ =~= seq!['}']);
        lemma_occurs_single(s, '}', reader.state.cursor as int);
    }
    match literal("}", reader) {
        Ok(()) => {},
        Err(e) => { return Err(e); },
    }
    Ok(Value::Object { space0, elements })
}

/// A member of a JSON object.
pub fn object_element(reader: &mut Reader) -> (r: Result<ObjectElement, Error>)
    requires
        old(reader).anchored(),
    ensures
        final(reader).anchored(),
        final(reader).buffer == old(reader).buffer,
        r is Ok ==> final(reader).state.cursor > old(reader).state.cursor,
        follows(r, object_element_spec(old(reader).buffer@, old(reader).state.cursor as int), final(reader).state.cursor as int),
    decreases old(reader).buffer@.len() - old(reader).state.cursor, 3int,
{
    let ghost s = reader.buffer@;
    proof {
        reveal_strlit("\"");
        reveal_strlit(":");
        assert("\""@ =~= seq!['"']);
        assert(":"@ =~= seq![':']);
    }
    let space0 = whitespace(reader);
    proof { lemma_occurs_single(s, '"', reader.state.cursor as int); }
    match literal("\"", reader) {
        Ok(()) => {},
        Err(e) => { return Err(e); },
    }
    let name = match key(reader) {
        Ok(k) => k,
        Err(e) => { return Err(e); },
    };
    proof { lemma_occurs_single(s, '"', reader.state.cursor as int); }
    match literal("\"", reader) {
        Ok(()) => {},
        Err(e) => { return Err(e); },
    }
    let space1 = whitespace(reader);
    proof { lemma_occurs_single(s, ':', reader.state.cursor as int); }
    match literal(":", reader) {
        Ok(()) => {},
        Err(e) => { return Err(e); },
    }
    let save = reader.state.pos;
    let space2 = whitespace(reader);
    let value = match parse(reader) {
        Ok(r) => r,
        Err(_) => {
            return Err(Error { pos: save, recoverable: false, inner: ParseError::Json {} });
        },
    };
    let space3 = whitespace(reader);
    Ok(ObjectElement { space0, name, space1, space2, value, space3 })
}

} // verus!
