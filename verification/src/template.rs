use vstd::prelude::*;

use crate::common::{Pos, SourceInfo};
use crate::json::{element_model, ElementModel, Expr, TemplateElement, Variable, Whitespace};
use crate::parse_error::{Error, ErrorKind, ErrorModel, ParseError};
use crate::reader::{advance, lemma_advance_concat, run_end, lemma_run_end, CharClass, Reader};
use crate::text::{append_str, push_char, lit};

verus! {

/// A decoded character of a quoted string, the text it was written as, and its position.
pub type EncodedChar = (char, String, Pos);

/// The characters of a quoted string, with the span between its quotes.
pub struct EncodedString {
    pub source_info: SourceInfo,
    pub chars: Vec<EncodedChar>,
}

/// The mathematical content of the characters of an encoded string.
pub open spec fn encoded_chars(chars: Seq<EncodedChar>) -> Seq<(char, Seq<char>, Pos)> {
    chars.map_values(|x: EncodedChar| (x.0, x.1@, x.2))
}

/// The state of the scan of a template.
#[derive(Clone, Copy, Debug, PartialEq, Eq)]
pub enum TemplateState {
    /// In a text.
    Text,
    /// After one `{` of a text.
    FirstOpenBracket,
    /// Inside `{{`.
    Template,
    /// After one `}` inside `{{`.
    FirstCloseBracket,
}

/// The position reached in an expression text `e` read from `base`, after `k` characters.
pub open spec fn expr_pos(e: Seq<char>, base: Pos, k: int) -> Pos {
    advance(base, e.take(k))
}

/// An expression: optional spaces, a variable name, optional spaces. Characters after
/// them are not read.
pub open spec fn expr_spec(e: Seq<char>, base: Pos) -> Result<ElementModel, ErrorModel> {
    let a = run_end(e, 0, CharClass::Space);
    let b = run_end(e, a, CharClass::VarChar);
    let c = run_end(e, b, CharClass::Space);
    if b == a {
        Err(ErrorModel { pos: expr_pos(e, base, a), recoverable: false, inner: ErrorKind::TemplateVariable })
    } else {
        Ok(ElementModel::Expression {
            space0: e.subrange(0, a),
            space0_info: SourceInfo { start: base, end: expr_pos(e, base, a) },
            name: e.subrange(a, b),
            name_info: SourceInfo { start: expr_pos(e, base, a), end: expr_pos(e, base, b) },
            space1: e.subrange(b, c),
            space1_info: SourceInfo { start: expr_pos(e, base, b), end: expr_pos(e, base, c) },
        })
    }
}

/// The elements, with the pending text added when there is one.
pub open spec fn with_text(elements: Seq<ElementModel>, value: Seq<char>, encoded: Seq<char>) -> Seq<ElementModel> {
    if value.len() > 0 {
        elements.push(ElementModel::Text { value, encoded })
    } else {
        elements
    }
}

/// The elements of a template, scanned from its `i`-th character.
pub open spec fn templatize_from(
    chars: Seq<(char, Seq<char>, Pos)>,
    i: int,
    st: TemplateState,
    value: Seq<char>,
    encoded: Seq<char>,
    elements: Seq<ElementModel>,
    start: Option<Pos>,
    end: Pos,
) -> Result<Seq<ElementModel>, ErrorModel>
    decreases chars.len() - i,
{
    if i < 0 || i >= chars.len() {
        match st {
            TemplateState::Text => Ok(with_text(elements, value, encoded)),
            TemplateState::FirstOpenBracket => Ok(with_text(elements, value.push('{'), encoded.push('{'))),
            _ => Err(ErrorModel { pos: end, recoverable: false, inner: ErrorKind::Expecting("}}"@) }),
        }
    } else {
        let c = chars[i].0;
        let raw = chars[i].1;
        let p = chars[i].2;
        match st {
            TemplateState::Text => if raw == seq!['{'] {
                templatize_from(chars, i + 1, TemplateState::FirstOpenBracket, value, encoded, elements, start, end)
            } else {
                templatize_from(chars, i + 1, TemplateState::Text, value.push(c), encoded + raw, elements, start, end)
            },
            TemplateState::FirstOpenBracket => if raw == seq!['{'] {
                templatize_from(chars, i + 1, TemplateState::Template, Seq::empty(), Seq::empty(), with_text(elements, value, encoded), start, end)
            } else {
                templatize_from(chars, i + 1, TemplateState::Text, value.push('{').push(c), encoded.push('{') + raw, elements, start, end)
            },
            TemplateState::Template => {
                let start2 = if start is None { Some(p) } else { start };
                if raw == seq!['}'] {
                    templatize_from(chars, i + 1, TemplateState::FirstCloseBracket, value, encoded, elements, start2, end)
                } else {
                    templatize_from(chars, i + 1, TemplateState::Template, value.push(c), encoded + raw, elements, start2, end)
                }
            },
            TemplateState::FirstCloseBracket => if raw == seq!['}'] {
                match expr_spec(encoded, start->0) {
                    Err(e) => Err(e),
                    Ok(x) => templatize_from(chars, i + 1, TemplateState::Text, Seq::empty(), Seq::empty(), elements.push(x), None, end),
                }
            } else {
                templatize_from(chars, i + 1, TemplateState::Template, value.push('}').push(c), encoded.push('}') + raw, elements, start, end)
            },
        }
    }
}

/// The elements of the template written as the characters `chars`, whose end is at `end`.
pub open spec fn templatize_spec(chars: Seq<(char, Seq<char>, Pos)>, end: Pos) -> Result<Seq<ElementModel>, ErrorModel> {
    templatize_from(chars, 0, TemplateState::Text, Seq::empty(), Seq::empty(), Seq::empty(), None, end)
}

pub open spec fn element_models(es: Seq<TemplateElement>) -> Seq<ElementModel> {
    es.map_values(|e: TemplateElement| element_model(e))
}

fn read_spaces(reader: &mut Reader, Ghost(base): Ghost<Pos>) -> (w: Whitespace)
    requires
        old(reader).wf(),
        old(reader).state.pos == advance(base, old(reader).buffer@.take(old(reader).state.cursor as int)),
    ensures
        final(reader).wf(),
        final(reader).buffer == old(reader).buffer,
        final(reader).state.pos == advance(base, final(reader).buffer@.take(final(reader).state.cursor as int)),
        final(reader).state.cursor == run_end(old(reader).buffer@, old(reader).state.cursor as int, CharClass::Space),
        w.value@ == old(reader).buffer@.subrange(old(reader).state.cursor as int, final(reader).state.cursor as int),
        w.source_info == (SourceInfo { start: old(reader).state.pos, end: final(reader).state.pos }),
{
    let start = reader.cursor();
    let ghost c0 = reader.state.cursor;
    let value = reader.read_while(CharClass::Space);
    proof {
        let b = reader.buffer@;
        lemma_run_end(b, c0 as int, reader.state.cursor as int, CharClass::Space);
        assert(b.take(reader.state.cursor as int) == b.take(c0 as int) + b.subrange(c0 as int, reader.state.cursor as int));
        lemma_advance_concat(base, b.take(c0 as int), b.subrange(c0 as int, reader.state.cursor as int));
    }
    Whitespace { value, source_info: SourceInfo { start: start.pos, end: reader.cursor().pos } }
}

/// Parses the expression written as `encoded`, whose first character is at `start`.
pub fn expression(encoded: &String, start: Pos) -> (r: Result<Expr, Error>)
    ensures
        match expr_spec(encoded@, start) {
            Ok(m) => r matches Ok(x) && element_model(TemplateElement::Expression(x)) == m,
            Err(e) => r matches Err(x) && x@ == e,
        },
{
    let mut reader = Reader::init(encoded.as_str());
    let ghost e = encoded@;
    reader.state.pos = start;
    assert(e.take(0) =~= Seq::<char>::empty());
    let space0 = read_spaces(&mut reader, Ghost(start));
    let vstart = reader.cursor();
    let ghost a = reader.state.cursor;
    let name = reader.read_while(CharClass::VarChar);
    proof {
        let b = reader.buffer@;
        lemma_run_end(b, a as int, reader.state.cursor as int, CharClass::VarChar);
        assert(b.take(reader.state.cursor as int) == b.take(a as int) + b.subrange(a as int, reader.state.cursor as int));
        lemma_advance_concat(start, b.take(a as int), b.subrange(a as int, reader.state.cursor as int));
    }
    if reader.state.cursor == vstart.cursor {
        return Err(Error { pos: vstart.pos, recoverable: false, inner: ParseError::TemplateVariable {} });
    }
    let variable = Variable { name, source_info: SourceInfo { start: vstart.pos, end: reader.cursor().pos } };
    let space1 = read_spaces(&mut reader, Ghost(start));
    Ok(Expr { space0, variable, space1 })
}

fn flush_text(elements: &mut Vec<TemplateElement>, value: String, encoded: String)
    ensures
        element_models(final(elements)@) == with_text(element_models(old(elements)@), value@, encoded@),
{
    if !value.as_str().is_empty() {
        let ghost before = elements@;
        elements.push(TemplateElement::String { value, encoded });
        assert(element_models(elements@) =~= element_models(before).push(element_model(elements@.last())));
    }
}

/// Splits the characters of a quoted string into texts and `{{ name }}` expressions.
pub fn templatize(encoded_string: EncodedString) -> (r: Result<Vec<TemplateElement>, Error>)
    ensures
        match templatize_spec(encoded_chars(encoded_string.chars@), encoded_string.source_info.end) {
            Ok(m) => r matches Ok(v) && element_models(v@) == m,
            Err(e) => r matches Err(x) && x@ == e,
        },
{
    let ghost chars = encoded_chars(encoded_string.chars@);
    let ghost end = encoded_string.source_info.end;
    let mut elements: Vec<TemplateElement> = Vec::new();
    let mut value = String::new();
    let mut encoded = String::new();
    let mut state = TemplateState::Text;
    let mut expression_start: Option<Pos> = None;
    let mut i: usize = 0;
    assert(element_models(elements@) =~= Seq::<ElementModel>::empty());
    while i < encoded_string.chars.len()
        invariant
            i <= encoded_string.chars.len(),
            chars == encoded_chars(encoded_string.chars@),
            end == encoded_string.source_info.end,
            state == TemplateState::FirstCloseBracket ==> expression_start is Some,
            templatize_spec(chars, end) == templatize_from(chars, i as int, state, value@, encoded@, element_models(elements@), expression_start, end),
        decreases encoded_string.chars.len() - i,
    {
        let c = encoded_string.chars[i].0;
        let raw = &encoded_string.chars[i].1;
        let pos = encoded_string.chars[i].2.clone();
        assert(chars[i as int] == (c, raw@, pos));
        let is_open = crate::text::str_eq(raw.as_str(), "{");
        let is_close = crate::text::str_eq(raw.as_str(), "}");
        proof {
            reveal_strlit("{");
            reveal_strlit("}");
            assert("{"@ =~= seq!['{']);
            assert("}"@ =~= seq!['}']);
        }
        match state {
            TemplateState::Text => {
                if is_open {
                    state = TemplateState::FirstOpenBracket;
                } else {
                    push_char(&mut value, c);
                    append_str(&mut encoded, raw.as_str());
                }
            },
            TemplateState::FirstOpenBracket => {
                if is_open {
                    let v = value;
                    let en = encoded;
                    flush_text(&mut elements, v, en);
                    value = String::new();
                    encoded = String::new();
                    state = TemplateState::Template;
                } else {
                    push_char(&mut value, '{');
                    push_char(&mut value, c);
                    push_char(&mut encoded, '{');
                    append_str(&mut encoded, raw.as_str());
                    state = TemplateState::Text;
                }
            },
            TemplateState::Template => {
                if expression_start.is_none() {
                    expression_start = Some(pos);
                }
                if is_close {
                    state = TemplateState::FirstCloseBracket;
                } else {
                    push_char(&mut value, c);
                    append_str(&mut encoded, raw.as_str());
                }
            },
            TemplateState::FirstCloseBracket => {
                if is_close {
                    let start = match &expression_start {
                        Some(p) => p.clone(),
                        None => Pos { line: 0, column: 0 },
                    };
                    proof { assert(expression_start is Some); }
                    let x = match expression(&encoded, start) {
                        Ok(x) => x,
                        Err(e) => {
                            return Err(e);
                        },
                    };
                    let ghost before = elements@;
                    elements.push(TemplateElement::Expression(x));
                    assert(element_models(elements@) =~= element_models(before).push(element_model(elements@.last())));
                    value = String::new();
                    encoded = String::new();
                    expression_start = None;
                    state = TemplateState::Text;
                } else {
                    push_char(&mut value, '}');
                    push_char(&mut value, c);
                    push_char(&mut encoded, '}');
                    append_str(&mut encoded, raw.as_str());
                    state = TemplateState::Template;
                }
            },
        }
        i += 1;
    }
    match state {
        TemplateState::Text => {},
        TemplateState::FirstOpenBracket => {
            push_char(&mut value, '{');
            push_char(&mut encoded, '{');
        },
        _ => {
            return Err(Error {
                pos: encoded_string.source_info.end.clone(),
                recoverable: false,
                inner: ParseError::Expecting { value: lit("}}") },
            });
        },
    }
    flush_text(&mut elements, value, encoded);
    Ok(elements)
}

} // verus!
