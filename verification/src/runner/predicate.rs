use vstd::prelude::*;

use crate::common::{lemma_values_size, value_size, values_size, Value};
use crate::runner::results::Error;
use crate::text::{
    append_str, bool_text, bool_to_string, int_decimal, i64_to_string, join, join_strings, lit, nat_decimal, push_char,
    str_eq, u64_to_string, views,
};

verus! {

/// How a value is shown in an assert report.
pub open spec fn display_text(v: Value) -> Seq<char>
    decreases v,
{
    match v {
        Value::Bool(b) => "bool <"@ + bool_text(b) + seq!['>'],
        Value::Integer(x) => "int <"@ + int_decimal(x as int) + seq!['>'],
        Value::String(s) => "string <"@ + s@ + seq!['>'],
        Value::Float(i, d) => "float <"@ + int_decimal(i as int) + seq!['.'] + nat_decimal(d as nat) + seq!['>'],
        Value::List(values) => seq!['['] + join(displays(values@), seq![',', ' ']) + seq![']'],
        Value::Nodeset(n) => "nodeset of size <"@ + nat_decimal(n as nat) + seq!['>'],
        Value::Object(_) => "object"@,
        Value::Bytes(b) => "byte array of size <"@ + nat_decimal(b@.len()) + seq!['>'],
        Value::Null => "null"@,
        Value::Unit => "unit"@,
    }
}

/// How the values of a list are shown.
pub open spec fn displays(vs: Seq<Value>) -> Seq<Seq<char>>
    decreases vs,
{
    if vs.len() == 0 {
        Seq::empty()
    } else {
        seq![display_text(vs[0])] + displays(vs.drop_first())
    }
}

/// Shows the values of a list, front to back.
fn display_all(values: &mut Vec<Value>, parts: &mut Vec<String>, Ghost(bound): Ghost<nat>)
    requires
        values_size(old(values)@) < bound,
    ensures
        views(final(parts)@) == views(old(parts)@) + displays(old(values)@),
    decreases bound, 0nat,
{
    if values.len() == 0 {
        assert(views(parts@) =~= views(old(parts)@) + displays(old(values)@));
        return;
    }
    let ghost vs = values@;
    let v = values.remove(0);
    proof {
        lemma_values_size(vs, 0);
        assert(values@ =~= vs.drop_first());
    }
    let t = v.display();
    let ghost mid = views(parts@);
    parts.push(t);
    assert(views(parts@) =~= mid.push(t@));
    display_all(values, parts, Ghost((bound - 1) as nat));
    assert(views(parts@) =~= views(old(parts)@) + displays(vs));
}

/// Appends a text and a closing `>` to a label.
pub(crate) fn labelled(label: &str, t: &str) -> (s: String)
    ensures
        s@ == label@ + t@ + seq!['>'],
{
    let mut s = lit(label);
    append_str(&mut s, t);
    push_char(&mut s, '>');
    s
}

impl Value {
    /// How the value is shown in an assert report.
    pub fn display(self) -> (s: String)
        ensures
            s@ == display_text(self),
        decreases value_size(self), 1nat,
    {
        let ghost me = self;
        match self {
            Value::Bool(v) => {
                let t = bool_to_string(v);
                labelled("bool <", t.as_str())
            },
            Value::Integer(v) => {
                let t = i64_to_string(v);
                labelled("int <", t.as_str())
            },
            Value::String(v) => labelled("string <", v.as_str()),
            Value::Float(i, d) => {
                let mut t = i64_to_string(i);
                push_char(&mut t, '.');
                let f = u64_to_string(d);
                append_str(&mut t, f.as_str());
                let s = labelled("float <", t.as_str());
                assert(s@ =~= display_text(me));
                s
            },
            Value::List(values) => {
                let mut values = values;
                let mut parts: Vec<String> = Vec::new();
                assert(views(parts@) =~= Seq::<Seq<char>>::empty());
                display_all(&mut values, &mut parts, Ghost(value_size(me)));
                let mut s = lit("[");
                let j = join_strings(&parts, ", ");
                append_str(&mut s, j.as_str());
                push_char(&mut s, ']');
                proof {
                    reveal_strlit("[");
                    reveal_strlit(", ");
                    assert("["@ =~= seq!['[']);
                    assert(", "@ =~= seq![',', ' ']);
                }
                assert(s@ =~= display_text(me));
                s
            },
            Value::Nodeset(n) => {
                let t = u64_to_string(n as u64);
                labelled("nodeset of size <", t.as_str())
            },
            Value::Object(_) => lit("object"),
            Value::Bytes(values) => {
                let t = u64_to_string(values.len() as u64);
                labelled("byte array of size <", t.as_str())
            },
            Value::Null => lit("null"),
            Value::Unit => lit("unit"),
        }
    }
}


/// Two values are equal, member by member and item by item.
pub open spec fn same_value(a: Value, b: Value) -> bool
    decreases a,
{
    match a {
        Value::Bool(x) => b matches Value::Bool(y) && x == y,
        Value::Integer(x) => b matches Value::Integer(y) && x == y,
        Value::Float(i, d) => b matches Value::Float(j, e) && i == j && d == e,
        Value::String(x) => b matches Value::String(y) && x@ == y@,
        Value::List(xs) => b matches Value::List(ys) && same_values(xs@, ys@),
        Value::Object(xs) => b matches Value::Object(ys) && same_members(xs@, ys@),
        Value::Nodeset(n) => b matches Value::Nodeset(m) && n == m,
        Value::Bytes(x) => b matches Value::Bytes(y) && x@ == y@,
        Value::Null => b is Null,
        Value::Unit => b is Unit,
    }
}

/// Two lists of values are equal, item by item.
pub open spec fn same_values(xs: Seq<Value>, ys: Seq<Value>) -> bool
    decreases xs,
{
    if xs.len() == 0 {
        ys.len() == 0
    } else {
        ys.len() > 0 && same_value(xs[0], ys[0]) && same_values(xs.drop_first(), ys.drop_first())
    }
}

/// Two lists of members are equal, name by name and value by value.
pub open spec fn same_members(xs: Seq<(String, Value)>, ys: Seq<(String, Value)>) -> bool
    decreases xs,
{
    if xs.len() == 0 {
        ys.len() == 0
    } else {
        ys.len() > 0 && xs[0].0@ == ys[0].0@ && same_value(xs[0].1, ys[0].1)
            && same_members(xs.drop_first(), ys.drop_first())
    }
}

proof fn lemma_same_values(xs: Seq<Value>, ys: Seq<Value>)
    ensures
        same_values(xs, ys) <==> (xs.len() == ys.len()
            && forall|k: int| 0 <= k < xs.len() ==> same_value(#[trigger] xs[k], ys[k])),
    decreases xs.len(),
{
    if xs.len() > 0 && ys.len() > 0 {
        lemma_same_values(xs.drop_first(), ys.drop_first());
        if xs.len() == ys.len() && forall|k: int| 0 <= k < xs.len() ==> same_value(#[trigger] xs[k], ys[k]) {
            assert forall|k: int| 0 <= k < xs.drop_first().len() implies same_value(#[trigger] xs.drop_first()[k], ys.drop_first()[k]) by {
                assert(same_value(xs[k + 1], ys[k + 1]));
            }
        }
        if same_values(xs, ys) {
            assert forall|k: int| 0 <= k < xs.len() implies same_value(#[trigger] xs[k], ys[k]) by {
                if k > 0 {
                    assert(same_value(xs.drop_first()[k - 1], ys.drop_first()[k - 1]));
                }
            }
        }
    }
}

proof fn lemma_same_members(xs: Seq<(String, Value)>, ys: Seq<(String, Value)>)
    ensures
        same_members(xs, ys) <==> (xs.len() == ys.len()
            && forall|k: int| 0 <= k < xs.len() ==> (#[trigger] xs[k]).0@ == ys[k].0@ && same_value(xs[k].1, ys[k].1)),
    decreases xs.len(),
{
    if xs.len() > 0 && ys.len() > 0 {
        lemma_same_members(xs.drop_first(), ys.drop_first());
        if xs.len() == ys.len() && forall|k: int| 0 <= k < xs.len() ==> (#[trigger] xs[k]).0@ == ys[k].0@ && same_value(xs[k].1, ys[k].1) {
            assert forall|k: int| 0 <= k < xs.drop_first().len() implies (#[trigger] xs.drop_first()[k]).0@ == ys.drop_first()[k].0@ && same_value(xs.drop_first()[k].1, ys.drop_first()[k].1) by {
                assert(xs[k + 1].0@ == ys[k + 1].0@);
            }
        }
        if same_members(xs, ys) {
            assert forall|k: int| 0 <= k < xs.len() implies (#[trigger] xs[k]).0@ == ys[k].0@ && same_value(xs[k].1, ys[k].1) by {
                if k > 0 {
                    assert(xs.drop_first()[k - 1].0@ == ys.drop_first()[k - 1].0@);
                }
            }
        }
    }
}

/// Whether two byte arrays hold the same bytes.
fn bytes_eq(x: &Vec<u8>, y: &Vec<u8>) -> (r: bool)
    ensures
        r == (x@ == y@),
{
    if x.len() != y.len() {
        return false;
    }
    let mut i: usize = 0;
    while i < x.len()
        invariant
            i <= x.len(),
            x.len() == y.len(),
            forall|k: int| 0 <= k < i ==> x@[k] == y@[k],
        decreases x.len() - i,
    {
        if x[i] != y[i] {
            return false;
        }
        i += 1;
    }
    assert(x@ =~= y@);
    true
}

/// Whether two values are equal, member by member and item by item.
pub fn value_eq(a: &Value, b: &Value) -> (r: bool)
    ensures
        r == same_value(*a, *b),
    decreases a,
{
    match (a, b) {
        (Value::Bool(x), Value::Bool(y)) => *x == *y,
        (Value::Integer(x), Value::Integer(y)) => *x == *y,
        (Value::Float(i, d), Value::Float(j, e)) => *i == *j && *d == *e,
        (Value::String(x), Value::String(y)) => str_eq(x.as_str(), y.as_str()),
        (Value::List(xs), Value::List(ys)) => {
            proof {
                lemma_same_values(xs@, ys@);
            }
            if xs.len() != ys.len() {
                return false;
            }
            let mut i: usize = 0;
            while i < xs.len()
                invariant
                    i <= xs.len(),
                    xs.len() == ys.len(),
                    forall|k: int| 0 <= k < i ==> same_value(#[trigger] xs@[k], ys@[k]),
                    *a == Value::List(*xs),
                    *b == Value::List(*ys),
                    same_values(xs@, ys@) <==> forall|k: int| 0 <= k < xs@.len() ==> same_value(#[trigger] xs@[k], ys@[k]),
                decreases xs.len() - i,
            {
                proof {
                    assert(decreases_to!(*a => (*a)->List_0));
                    assert(decreases_to!(*xs => xs@));
                    assert(decreases_to!(xs@ => xs@[i as int]));
                }
                if !value_eq(&xs[i], &ys[i]) {
                    return false;
                }
                i += 1;
            }
            true
        },
        (Value::Object(xs), Value::Object(ys)) => {
            proof {
                lemma_same_members(xs@, ys@);
            }
            if xs.len() != ys.len() {
                return false;
            }
            let mut i: usize = 0;
            while i < xs.len()
                invariant
                    i <= xs.len(),
                    xs.len() == ys.len(),
                    forall|k: int| 0 <= k < i ==> (#[trigger] xs@[k]).0@ == ys@[k].0@ && same_value(xs@[k].1, ys@[k].1),
                    *a == Value::Object(*xs),
                    *b == Value::Object(*ys),
                    same_members(xs@, ys@) <==> forall|k: int| 0 <= k < xs@.len() ==> (#[trigger] xs@[k]).0@ == ys@[k].0@ && same_value(xs@[k].1, ys@[k].1),
                decreases xs.len() - i,
            {
                proof {
                    assert(decreases_to!(*a => (*a)->Object_0));
                    assert(decreases_to!(*xs => xs@));
                    assert(decreases_to!(xs@ => xs@[i as int]));
                    assert(decreases_to!(xs@[i as int] => xs@[i as int].1));
                }
                if !str_eq(xs[i].0.as_str(), ys[i].0.as_str()) || !value_eq(&xs[i].1, &ys[i].1) {
                    return false;
                }
                i += 1;
            }
            true
        },
        (Value::Nodeset(n), Value::Nodeset(m)) => *n == *m,
        (Value::Bytes(x), Value::Bytes(y)) => bytes_eq(x, y),
        (Value::Null, Value::Null) => true,
        (Value::Unit, Value::Unit) => true,
        _ => false,
    }
}


/// The outcome of comparing a value with an expected one: whether it matched, whether
/// their types could not be compared, and both as shown in a report.
pub struct AssertResult {
    pub success: bool,
    pub type_mismatch: bool,
    pub actual: String,
    pub expected: String,
}

/// The pairs of values that an equality assert compares: same kinds, or a float
/// against an integer.
pub open spec fn comparable(actual: Value, expected: Value) -> bool {
    match (actual, expected) {
        (Value::Null, Value::Null) => true,
        (Value::Bool(_), Value::Bool(_)) => true,
        (Value::Integer(_), Value::Integer(_)) => true,
        (Value::Float(_, _), Value::Integer(_)) => true,
        (Value::Float(_, _), Value::Float(_, _)) => true,
        (Value::String(_), Value::String(_)) => true,
        (Value::List(_), Value::List(_)) => true,
        (Value::Bytes(_), Value::Bytes(_)) => true,
        _ => false,
    }
}

/// An equality assert holds: the values are comparable and equal; a float equals an
/// integer when it has no decimal part.
pub open spec fn equal_success(actual: Value, expected: Value) -> bool {
    match (actual, expected) {
        (Value::Float(i, d), Value::Integer(j)) => i == j && d == 0,
        _ => comparable(actual, expected) && same_value(actual, expected),
    }
}

/// Whether an equality assert holds, and whether the values are comparable.
pub(crate) fn equal_outcome(actual: &Value, expected: &Value) -> (r: (bool, bool))
    ensures
        r.0 == equal_success(*actual, *expected),
        r.1 == comparable(*actual, *expected),
{
    match (actual, expected) {
        (Value::Float(i, d), Value::Integer(j)) => (*i == *j && *d == 0, true),
        (Value::Null, Value::Null) | (Value::Bool(_), Value::Bool(_)) | (Value::Integer(_), Value::Integer(_))
        | (Value::Float(_, _), Value::Float(_, _)) | (Value::String(_), Value::String(_))
        | (Value::List(_), Value::List(_)) | (Value::Bytes(_), Value::Bytes(_)) => (value_eq(actual, expected), true),
        _ => (false, false),
    }
}

/// Compares a value with an expected one.
pub fn assert_values_equal(actual: Value, expected: Value) -> (r: Result<AssertResult, Error>)
    ensures
        r matches Ok(o) && o.success == equal_success(actual, expected)
            && o.type_mismatch == !comparable(actual, expected)
            && o.actual@ == display_text(actual) && o.expected@ == display_text(expected),
{
    let (success, is_comparable) = equal_outcome(&actual, &expected);
    Ok(AssertResult {
        success,
        type_mismatch: !is_comparable,
        actual: actual.display(),
        expected: expected.display(),
    })
}

/// Checks that a list holds an item equal to an element.
pub fn assert_include(value: Value, element: Value) -> (r: Result<AssertResult, Error>)
    ensures
        r matches Ok(o) && o.actual@ == display_text(value)
            && o.expected@ == "includes "@ + display_text(element)
            && o.type_mismatch == !(value is List)
            && o.success == (value matches Value::List(vs)
                && exists|k: int| 0 <= k < vs@.len() && equal_success(#[trigger] vs@[k], element)),
{
    let mut success = false;
    let type_mismatch = match &value {
        Value::List(values) => {
            let mut i: usize = 0;
            while i < values.len()
                invariant_except_break
                    !success,
                invariant
                    i <= values.len(),
                    forall|k: int| 0 <= k < i ==> !equal_success(#[trigger] values@[k], element),
                ensures
                    success <==> exists|k: int| 0 <= k < values@.len() && equal_success(#[trigger] values@[k], element),
                decreases values.len() - i,
            {
                let (s, _) = equal_outcome(&values[i], &element);
                if s {
                    success = true;
                    break;
                }
                i += 1;
            }
            false
        },
        _ => true,
    };
    let mut expected = lit("includes ");
    let e = element.display();
    append_str(&mut expected, e.as_str());
    Ok(AssertResult { success, type_mismatch, actual: value.display(), expected })
}


/// A copy of bytes.
fn copy_bytes(x: &Vec<u8>) -> (r: Vec<u8>)
    ensures
        r@ == x@,
{
    let mut r: Vec<u8> = Vec::new();
    let mut i: usize = 0;
    while i < x.len()
        invariant
            i <= x.len(),
            r@ == x@.take(i as int),
        decreases x.len() - i,
    {
        r.push(x[i]);
        i += 1;
        assert(r@ =~= x@.take(i as int));
    }
    assert(x@.take(x.len() as int) =~= x@);
    r
}

/// A copy of a value, equal to it member by member and item by item.
pub fn copy_value(v: &Value) -> (r: Value)
    ensures
        same_value(*v, r),
    decreases v,
{
    match v {
        Value::Bool(x) => Value::Bool(*x),
        Value::Integer(x) => Value::Integer(*x),
        Value::Float(i, d) => Value::Float(*i, *d),
        Value::String(x) => Value::String(x.clone()),
        Value::List(xs) => {
            let mut ys: Vec<Value> = Vec::new();
            let mut i: usize = 0;
            while i < xs.len()
                invariant
                    i <= xs.len(),
                    ys.len() == i,
                    forall|k: int| 0 <= k < i ==> same_value(xs@[k], #[trigger] ys@[k]),
                    *v == Value::List(*xs),
                decreases xs.len() - i,
            {
                proof {
                    assert(decreases_to!(*v => (*v)->List_0));
                    assert(decreases_to!(*xs => xs@));
                    assert(decreases_to!(xs@ => xs@[i as int]));
                }
                let c = copy_value(&xs[i]);
                ys.push(c);
                i += 1;
            }
            proof {
                lemma_same_values(xs@, ys@);
            }
            Value::List(ys)
        },
        Value::Object(xs) => {
            let mut ys: Vec<(String, Value)> = Vec::new();
            let mut i: usize = 0;
            while i < xs.len()
                invariant
                    i <= xs.len(),
                    ys.len() == i,
                    forall|k: int| 0 <= k < i ==> xs@[k].0@ == (#[trigger] ys@[k]).0@ && same_value(xs@[k].1, ys@[k].1),
                    *v == Value::Object(*xs),
                decreases xs.len() - i,
            {
                proof {
                    assert(decreases_to!(*v => (*v)->Object_0));
                    assert(decreases_to!(*xs => xs@));
                    assert(decreases_to!(xs@ => xs@[i as int]));
                    assert(decreases_to!(xs@[i as int] => xs@[i as int].1));
                }
                let c = copy_value(&xs[i].1);
                ys.push((xs[i].0.clone(), c));
                i += 1;
            }
            proof {
                lemma_same_members(xs@, ys@);
            }
            Value::Object(ys)
        },
        Value::Nodeset(n) => Value::Nodeset(*n),
        Value::Bytes(x) => Value::Bytes(copy_bytes(x)),
        Value::Null => Value::Null,
        Value::Unit => Value::Unit,
    }
}


/// How a value is shown in an assert report, read in place.
pub fn display_of(v: &Value) -> (s: String)
    ensures
        s@ == display_text(*v),
    decreases v,
{
    match v {
        Value::Bool(b) => {
            let t = bool_to_string(*b);
            labelled("bool <", t.as_str())
        },
        Value::Integer(x) => {
            let t = i64_to_string(*x);
            labelled("int <", t.as_str())
        },
        Value::String(x) => labelled("string <", x.as_str()),
        Value::Float(i, d) => {
            let mut t = i64_to_string(*i);
            push_char(&mut t, '.');
            let f = u64_to_string(*d);
            append_str(&mut t, f.as_str());
            let s = labelled("float <", t.as_str());
            assert(s@ =~= display_text(*v));
            s
        },
        Value::List(xs) => {
            let mut parts: Vec<String> = Vec::new();
            let mut i: usize = 0;
            while i < xs.len()
                invariant
                    i <= xs.len(),
                    *v == Value::List(*xs),
                    views(parts@) == displays(xs@.take(i as int)),
                decreases xs.len() - i,
            {
                proof {
                    assert(decreases_to!(*v => (*v)->List_0));
                    assert(decreases_to!(*xs => xs@));
                    assert(decreases_to!(xs@ => xs@[i as int]));
                    lemma_displays_push(xs@, i as int);
                }
                let t = display_of(&xs[i]);
                let ghost before = views(parts@);
                parts.push(t);
                assert(views(parts@) =~= before.push(t@));
                i += 1;
            }
            assert(xs@.take(xs.len() as int) =~= xs@);
            let mut s = lit("[");
            let j = join_strings(&parts, ", ");
            append_str(&mut s, j.as_str());
            push_char(&mut s, ']');
            proof {
                reveal_strlit("[");
                reveal_strlit(", ");
                assert("["@ =~= seq!['[']);
                assert(", "@ =~= seq![',', ' ']);
            }
            assert(s@ =~= display_text(*v));
            s
        },
        Value::Nodeset(n) => {
            let t = u64_to_string(*n as u64);
            labelled("nodeset of size <", t.as_str())
        },
        Value::Object(_) => lit("object"),
        Value::Bytes(b) => {
            let t = u64_to_string(b.len() as u64);
            labelled("byte array of size <", t.as_str())
        },
        Value::Null => lit("null"),
        Value::Unit => lit("unit"),
    }
}

/// The displays of the first values, one more.
proof fn lemma_displays_push(xs: Seq<Value>, i: int)
    requires
        0 <= i < xs.len(),
    ensures
        displays(xs.take(i + 1)) == displays(xs.take(i)).push(display_text(xs[i])),
    decreases i,
{
    if i == 0 {
        assert(xs.take(1).drop_first() =~= Seq::<Value>::empty());
        assert(displays(Seq::<Value>::empty()) =~= Seq::<Seq<char>>::empty());
        assert(xs.take(1)[0] == xs[0]);
        assert(displays(xs.take(1)) =~= seq![display_text(xs[0])] + displays(Seq::<Value>::empty()));
        assert(displays(xs.take(0)) =~= Seq::<Seq<char>>::empty());
    } else {
        lemma_displays_push(xs.drop_first(), i - 1);
        assert(xs.take(i + 1).drop_first() =~= xs.drop_first().take(i));
        assert(xs.take(i).drop_first() =~= xs.drop_first().take(i - 1));
        assert(xs.drop_first()[i - 1] == xs[i]);
        assert(displays(xs.take(i + 1)) =~= displays(xs.take(i)).push(display_text(xs[i])));
    }
}

} // verus!
