use vstd::prelude::*;

use crate::text::{append_str, bool_text, bool_to_string, int_decimal, i64_to_string, join, join_strings, lit, nat_decimal, nat_hex, push_char, u64_to_hex, u64_to_string, views};

verus! {

/// A value of a former representation, kept for compatibility.
#[derive(Clone, Debug, PartialEq, Eq)]
pub enum DeprecatedValue {
    Int(i32),
    String(String),
    List(usize),
    Bool(bool),
    Number(i32, u32),
    ListInt(Vec<i32>),
}

/// A value computed when running a Hurl file (query result, variable, ...).
///
/// A float is kept as its integer part and its decimal part (18 digits).
#[derive(Debug, PartialEq, Eq)]
pub enum Value {
    Bool(bool),
    Integer(i64),
    Float(i64, u64),
    String(String),
    List(Vec<Value>),
    Object(Vec<(String, Value)>),
    Nodeset(usize),
    Bytes(Vec<u8>),
    Null,
    Unit,
}

/// A measure of the nesting of a value.
pub open spec fn value_size(v: Value) -> nat
    decreases v,
{
    match v {
        Value::List(values) => 1 + values_size(values@),
        _ => 1,
    }
}

/// The sum of the measures of values.
pub open spec fn values_size(vs: Seq<Value>) -> nat
    decreases vs,
{
    if vs.len() == 0 {
        0
    } else {
        value_size(vs[0]) + values_size(vs.drop_first())
    }
}

pub proof fn lemma_values_size(vs: Seq<Value>, i: int)
    requires
        0 <= i < vs.len(),
    ensures
        value_size(vs[i]) <= values_size(vs),
    decreases vs.len(),
{
    if i > 0 {
        lemma_values_size(vs.drop_first(), i - 1);
    }
}

/// The name of the type of a value.
pub open spec fn value_type_name(v: Value) -> Seq<char> {
    match v {
        Value::Integer(_) => "integer"@,
        Value::Bool(_) => "boolean"@,
        Value::Float(_, _) => "float"@,
        Value::String(_) => "string"@,
        Value::List(_) => "list"@,
        Value::Object(_) => "object"@,
        Value::Nodeset(_) => "nodeset"@,
        Value::Bytes(_) => "bytes"@,
        Value::Null => "unit"@,
        Value::Unit => "unit"@,
    }
}

/// A value is scalar unless it is a list or a nodeset.
pub open spec fn scalar(v: Value) -> bool {
    !(v is Nodeset || v is List)
}

/// The debug notation of bytes in hexadecimal: `[41, ff]`.
pub open spec fn hex_bytes_text(bytes: Seq<u8>) -> Seq<char> {
    seq!['['] + join(bytes.map_values(|b: u8| nat_hex(b as nat)), ", "@) + seq![']']
}

/// The text of a value.
pub open spec fn value_text(v: Value) -> Seq<char>
    decreases v,
{
    match v {
        Value::Integer(x) => int_decimal(x as int),
        Value::Bool(x) => bool_text(x),
        Value::Float(i, d) => int_decimal(i as int) + seq!['.'] + nat_decimal(d as nat),
        Value::String(x) => x@,
        Value::List(values) => seq!['['] + join(values_text(values@), seq![',']) + seq![']'],
        Value::Object(_) => "Object()"@,
        Value::Nodeset(x) => "Nodeset"@ + nat_decimal(x as nat),
        Value::Bytes(x) => "Bytes("@ + hex_bytes_text(x@) + seq![')'],
        Value::Null => "Null"@,
        Value::Unit => "Unit"@,
    }
}

/// The texts of a sequence of values.
pub open spec fn values_text(vs: Seq<Value>) -> Seq<Seq<char>>
    decreases vs,
{
    if vs.len() == 0 {
        Seq::empty()
    } else {
        seq![value_text(vs[0])] + values_text(vs.drop_first())
    }
}

pub proof fn lemma_values_text_len(vs: Seq<Value>)
    ensures
        values_text(vs).len() == vs.len(),
        forall|i: int| 0 <= i < vs.len() ==> values_text(vs)[i] == value_text(#[trigger] vs[i]),
    decreases vs.len(),
{
    if vs.len() > 0 {
        lemma_values_text_len(vs.drop_first());
        assert forall|i: int| 0 <= i < vs.len() implies values_text(vs)[i] == value_text(#[trigger] vs[i]) by {
            if i > 0 {
                assert(vs.drop_first()[i - 1] == vs[i]);
            }
        }
    }
}

proof fn lemma_views_push(v: Seq<String>, x: String)
    ensures
        views(v.push(x)) == views(v).push(x@),
{
    assert(views(v.push(x)) =~= views(v).push(x@));
}

fn bytes_hex_string(bytes: &Vec<u8>) -> (s: String)
    ensures
        s@ == hex_bytes_text(bytes@),
{
    let mut parts: Vec<String> = Vec::new();
    let mut i: usize = 0;
    while i < bytes.len()
        invariant
            i <= bytes.len(),
            views(parts@) == bytes@.take(i as int).map_values(|b: u8| nat_hex(b as nat)),
        decreases bytes.len() - i,
    {
        let h = u64_to_hex(bytes[i] as u64);
        let ghost before = parts@;
        parts.push(h);
        proof {
            assert(bytes@.take(i + 1) == bytes@.take(i as int).push(bytes@[i as int]));
            lemma_views_push(before, h);
        }
        i += 1;
        assert(views(parts@) =~= bytes@.take(i as int).map_values(|b: u8| nat_hex(b as nat)));
    }
    assert(bytes@.take(bytes.len() as int) == bytes@);
    let mut s = lit("[");
    let j = join_strings(&parts, ", ");
    append_str(&mut s, j.as_str());
    append_str(&mut s, "]");
    proof {
        reveal_strlit("[");
        reveal_strlit("]");
        reveal_strlit(", ");
    }
    s
}

impl Value {
    /// The name of the type of the value.
    pub fn _type(&self) -> (s: String)
        ensures
            s@ == value_type_name(*self),
    {
        let s = match self {
            Value::Integer(_) => "integer",
            Value::Bool(_) => "boolean",
            Value::Float(_, _) => "float",
            Value::String(_) => "string",
            Value::List(_) => "list",
            Value::Object(_) => "object",
            Value::Nodeset(_) => "nodeset",
            Value::Bytes(_) => "bytes",
            Value::Null => "unit",
            Value::Unit => "unit",
        };
        lit(s)
    }

    /// Whether the value is scalar (neither a list nor a nodeset).
    pub fn is_scalar(&self) -> (b: bool)
        ensures
            b == scalar(*self),
    {
        match self {
            Value::Nodeset(_) | Value::List(_) => false,
            _ => true,
        }
    }

    /// The text of the value.
    pub fn to_string(&self) -> (s: String)
        ensures
            s@ == value_text(*self),
        decreases value_size(*self),
    {
        match self {
            Value::Integer(x) => i64_to_string(*x),
            Value::Bool(x) => bool_to_string(*x),
            Value::Float(i, d) => {
                let mut s = i64_to_string(*i);
                push_char(&mut s, '.');
                let t = u64_to_string(*d);
                append_str(&mut s, t.as_str());
                assert(s@ =~= value_text(*self));
                s
            },
            Value::String(x) => x.clone(),
            Value::List(values) => {
                let mut parts: Vec<String> = Vec::new();
                let mut i: usize = 0;
                proof { lemma_values_text_len(values@); }
                while i < values.len()
                    invariant
                        i <= values.len(),
                        value_size(*self) == 1 + values_size(values@),
                        values_text(values@).len() == values@.len(),
                        forall|k: int| 0 <= k < values@.len() ==> values_text(values@)[k] == value_text(#[trigger] values@[k]),
                        views(parts@) == values_text(values@).take(i as int),
                    decreases values.len() - i,
                {
                    proof {
                        lemma_values_size(values@, i as int);
                    }
                    let t = values[i].to_string();
                    let ghost before = parts@;
                    parts.push(t);
                    proof {
                        lemma_views_push(before, t);
                        assert(values_text(values@).take(i + 1) == values_text(values@).take(i as int).push(values_text(values@)[i as int]));
                    }
                    i += 1;
                    assert(views(parts@) =~= values_text(values@).take(i as int));
                }
                assert(values_text(values@).take(values.len() as int) == values_text(values@));
                let mut s = lit("[");
                let j = join_strings(&parts, ",");
                append_str(&mut s, j.as_str());
                push_char(&mut s, ']');
                proof {
                    reveal_strlit("[");
                    reveal_strlit(",");
                    assert(","@ =~= seq![',']);
                    assert("["@ =~= seq!['[']);
                }
                assert(s@ =~= value_text(*self));
                s
            },
            Value::Object(_) => lit("Object()"),
            Value::Nodeset(x) => {
                let mut s = lit("Nodeset");
                let t = u64_to_string(*x as u64);
                append_str(&mut s, t.as_str());
                assert(s@ =~= value_text(*self));
                s
            },
            Value::Bytes(x) => {
                let mut s = lit("Bytes(");
                let t = bytes_hex_string(x);
                append_str(&mut s, t.as_str());
                push_char(&mut s, ')');
                assert(s@ =~= value_text(*self));
                s
            },
            Value::Null => lit("Null"),
            Value::Unit => lit("Unit"),
        }
    }
}

/// A position in a text: line and column, both counted from 1.
#[derive(Clone, Copy, Debug, PartialEq, Eq)]
pub struct Pos {
    pub line: usize,
    pub column: usize,
}

/// The span of a text between two positions.
#[derive(Clone, Copy, Debug, PartialEq, Eq)]
pub struct SourceInfo {
    pub start: Pos,
    pub end: Pos,
}

impl SourceInfo {
    /// The span from (`start_line`, `start_col`) to (`end_line`, `end_column`).
    pub fn init(start_line: usize, start_col: usize, end_line: usize, end_column: usize) -> (r: SourceInfo)
        ensures
            r.start.line == start_line,
            r.start.column == start_col,
            r.end.line == end_line,
            r.end.column == end_column,
    {
        SourceInfo {
            start: Pos { line: start_line, column: start_col },
            end: Pos { line: end_line, column: end_column },
        }
    }
}

/// An error that can be reported: where it is, what it is, and how to fix it.
pub trait FormatError {
    fn source_info(&self) -> SourceInfo;

    fn description(&self) -> String;

    fn fixme(&self) -> String;
}

} // verus!
