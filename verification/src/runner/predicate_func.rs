use vstd::prelude::*;

use crate::common::{Pos, SourceInfo, Value};
use crate::json::{Expr, Template, Whitespace};
use crate::runner::json_eval::{find_variable, template_text, var_lookup};
use crate::runner::predicate::{
    comparable, display_of, display_text, equal_outcome, equal_success, same_value, AssertResult,
};
use crate::runner::results::{Error, RunnerError};
use crate::text::{
    append_str, bool_text, bool_to_string, contains_seq, int_decimal, lit, nat_decimal, push_char, regex_is_match, regex_match, regex_valid,
    starts_with_seq, str_contains, str_starts_with, u64_to_string, i64_to_string,
};

verus! {

/// A float written in a Hurl file: its integer part, its decimal part (18 digits) and
/// the number of decimal digits written.
#[derive(Clone, Copy, Debug, PartialEq, Eq)]
pub struct Float {
    pub int: i64,
    pub decimal: u64,
    pub decimal_digits: usize,
}

/// What a predicate checks of a value.
#[derive(Clone, Debug, PartialEq, Eq)]
pub enum PredicateFuncValue {
    EqualInt { space0: Whitespace, value: i64 },
    EqualFloat { space0: Whitespace, value: Float },
    EqualBool { space0: Whitespace, value: bool },
    EqualNull { space0: Whitespace },
    EqualString { space0: Whitespace, value: Template },
    EqualExpression { space0: Whitespace, value: Expr },
    CountEqual { space0: Whitespace, value: u64 },
    StartWith { space0: Whitespace, value: Template },
    Contain { space0: Whitespace, value: Template },
    IncludeString { space0: Whitespace, value: Template },
    IncludeInt { space0: Whitespace, value: i64 },
    IncludeFloat { space0: Whitespace, value: Float },
    IncludeBool { space0: Whitespace, value: bool },
    IncludeNull { space0: Whitespace },
    IncludeExpression { space0: Whitespace, value: Expr },
    Match { space0: Whitespace, value: Template },
    Exist {},
}

/// A predicate function and where it is written.
#[derive(Clone, Debug, PartialEq, Eq)]
pub struct PredicateFunc {
    pub source_info: SourceInfo,
    pub value: PredicateFuncValue,
}

/// The outcome of a check as plain values.
pub struct Outcome {
    pub success: bool,
    pub type_mismatch: bool,
    pub actual: Seq<char>,
    pub expected: Seq<char>,
}

/// The outcome of an assert result.
pub open spec fn outcome_of(a: AssertResult) -> Outcome {
    Outcome { success: a.success, type_mismatch: a.type_mismatch, actual: a.actual@, expected: a.expected@ }
}

/// Why a check could not be made: an undefined variable (where, which), or a pattern
/// that is not a regular expression.
pub enum Failure {
    Undefined(SourceInfo, Seq<char>),
    InvalidRegex,
}

/// The error reported for a failure of the predicate function written at `si`.
pub open spec fn failure_error(e: Error, f: Failure, si: SourceInfo) -> bool {
    &&& !e.assert
    &&& match f {
        Failure::Undefined(at, name) => e.source_info == at
            && (e.inner matches RunnerError::TemplateVariableNotDefined { name: n } && n@ == name),
        Failure::InvalidRegex => e.source_info == si && e.inner is InvalidRegex,
    }
}

/// Comparing a value with an expected one.
pub open spec fn equal_outcome_spec(actual: Value, expected: Value) -> Outcome {
    Outcome {
        success: equal_success(actual, expected),
        type_mismatch: !comparable(actual, expected),
        actual: display_text(actual),
        expected: display_text(expected),
    }
}

/// Comparing a value with an expected string.
pub open spec fn equal_string_outcome(actual: Value, s: Seq<char>) -> Outcome {
    Outcome {
        success: actual matches Value::String(a) && a@ == s,
        type_mismatch: !(actual is String),
        actual: display_text(actual),
        expected: "string <"@ + s + ">"@,
    }
}

/// Looking for an element in a list.
pub open spec fn include_outcome_spec(value: Value, element: Value) -> Outcome {
    Outcome {
        success: value matches Value::List(vs) && exists|k: int| 0 <= k < vs@.len() && equal_success(#[trigger] vs@[k], element),
        type_mismatch: !(value is List),
        actual: display_text(value),
        expected: "includes "@ + display_text(element),
    }
}

/// Looking for a string in a list.
pub open spec fn include_string_outcome(value: Value, s: Seq<char>) -> Outcome {
    Outcome {
        success: value matches Value::List(vs) && exists|k: int| 0 <= k < vs@.len() && (#[trigger] vs@[k] matches Value::String(a) && a@ == s),
        type_mismatch: !(value is List),
        actual: display_text(value),
        expected: "includes "@ + "string <"@ + s + ">"@,
    }
}

/// A test on a string value: `holds` of its text when it is a string.
pub open spec fn string_test_outcome(value: Value, success: bool, expected: Seq<char>) -> Outcome {
    Outcome {
        success: value is String && success,
        type_mismatch: !(value is String),
        actual: display_text(value),
        expected,
    }
}

/// The text of a string value.
pub open spec fn text_of(v: Value) -> Seq<char> {
    match v {
        Value::String(a) => a@,
        _ => Seq::empty(),
    }
}

/// Counting the items of a list or the nodes of a node set.
pub open spec fn count_outcome(value: Value, n: u64) -> Outcome {
    Outcome {
        success: match value {
            Value::List(vs) => vs@.len() == n,
            Value::Nodeset(m) => m == n,
            _ => false,
        },
        type_mismatch: !(value is List || value is Nodeset),
        actual: display_text(value),
        expected: "count equals to <"@ + nat_decimal(n as nat) + ">"@,
    }
}

/// The outcome of a template-valued check: the template's text `s` given to `k`.
pub open spec fn with_template(t: Template, vs: Seq<(String, Value)>, value: Value, which: PredicateFuncValue) -> Result<Outcome, Failure> {
    match template_text(t@.elements, vs) {
        Err(u) => Err(Failure::Undefined(u.0, u.1)),
        Ok(s) => match which {
            PredicateFuncValue::EqualString { .. } => Ok(equal_string_outcome(value, s)),
            PredicateFuncValue::StartWith { .. } => Ok(string_test_outcome(value, starts_with_seq(text_of(value), s), "starts with string <"@ + s + ">"@)),
            PredicateFuncValue::Contain { .. } => Ok(string_test_outcome(value, contains_seq(text_of(value), s), "contains string <"@ + s + ">"@)),
            PredicateFuncValue::IncludeString { .. } => Ok(include_string_outcome(value, s)),
            _ => if !regex_valid(s) {
                Err(Failure::InvalidRegex)
            } else {
                Ok(string_test_outcome(value, regex_is_match(s, text_of(value)), "matches regex <"@ + s + ">"@))
            },
        },
    }
}

/// The outcome of a predicate function on a value, or why it could not be checked.
pub open spec fn predicate_outcome(f: PredicateFuncValue, vs: Seq<(String, Value)>, value: Value) -> Result<Outcome, Failure> {
    match f {
        PredicateFuncValue::EqualInt { value: x, .. } => Ok(equal_outcome_spec(value, Value::Integer(x))),
        PredicateFuncValue::EqualNull { .. } => Ok(equal_outcome_spec(value, Value::Null)),
        PredicateFuncValue::EqualBool { value: b, .. } => Ok(equal_outcome_spec(value, Value::Bool(b))),
        PredicateFuncValue::EqualFloat { value: x, .. } => Ok(equal_outcome_spec(value, Value::Float(x.int, x.decimal))),
        PredicateFuncValue::EqualString { value: t, .. } => with_template(t, vs, value, f),
        PredicateFuncValue::EqualExpression { value: x, .. } => match var_lookup(vs, x.variable.name@) {
            Some(e) => Ok(equal_outcome_spec(value, e)),
            None => Err(Failure::Undefined(x.variable.source_info, x.variable.name@)),
        },
        PredicateFuncValue::CountEqual { value: n, .. } => Ok(count_outcome(value, n)),
        PredicateFuncValue::StartWith { value: t, .. } => with_template(t, vs, value, f),
        PredicateFuncValue::Contain { value: t, .. } => with_template(t, vs, value, f),
        PredicateFuncValue::IncludeString { value: t, .. } => with_template(t, vs, value, f),
        PredicateFuncValue::IncludeInt { value: x, .. } => Ok(include_outcome_spec(value, Value::Integer(x))),
        PredicateFuncValue::IncludeFloat { value: x, .. } => Ok(include_outcome_spec(value, Value::Float(x.int, x.decimal))),
        PredicateFuncValue::IncludeBool { value: b, .. } => Ok(include_outcome_spec(value, Value::Bool(b))),
        PredicateFuncValue::IncludeNull { .. } => Ok(include_outcome_spec(value, Value::Null)),
        PredicateFuncValue::IncludeExpression { value: x, .. } => match var_lookup(vs, x.variable.name@) {
            Some(e) => Ok(include_outcome_spec(value, e)),
            None => Err(Failure::Undefined(x.variable.source_info, x.variable.name@)),
        },
        PredicateFuncValue::Match { value: t, .. } => with_template(t, vs, value, f),
        PredicateFuncValue::Exist {} => Ok(Outcome {
            success: value != Value::Nodeset(0),
            type_mismatch: false,
            actual: display_text(value),
            expected: "something"@,
        }),
    }
}

/// The result of comparing a value with an expected one.
fn equal_result(actual: &Value, expected: &Value) -> (r: AssertResult)
    ensures
        outcome_of(r) == equal_outcome_spec(*actual, *expected),
{
    let (success, is_comparable) = equal_outcome(actual, expected);
    AssertResult { success, type_mismatch: !is_comparable, actual: display_of(actual), expected: display_of(expected) }
}

/// The result of looking for an element in a list.
fn include_result(value: &Value, element: &Value) -> (r: AssertResult)
    ensures
        outcome_of(r) == include_outcome_spec(*value, *element),
{
    let mut success = false;
    let type_mismatch = match value {
        Value::List(values) => {
            let mut i: usize = 0;
            while i < values.len()
                invariant_except_break
                    !success,
                invariant
                    i <= values.len(),
                    forall|k: int| 0 <= k < i ==> !equal_success(#[trigger] values@[k], *element),
                ensures
                    success <==> exists|k: int| 0 <= k < values@.len() && equal_success(#[trigger] values@[k], *element),
                decreases values.len() - i,
            {
                let (s, _) = equal_outcome(&values[i], element);
                if s {
                    success = true;
                    break;
                }
                i += 1;
            }
            false
        },
        _ => true,
    };
    let mut expected = lit("includes ");
    let e = display_of(element);
    append_str(&mut expected, e.as_str());
    AssertResult { success, type_mismatch, actual: display_of(value), expected }
}

/// A string value compared with an expected string is the comparison of their texts.
proof fn lemma_equal_string(actual: Value, e: String)
    ensures
        equal_outcome_spec(actual, Value::String(e)) == equal_string_outcome(actual, e@),
{
    reveal_strlit("string <");
    reveal_strlit(">");
    assert(">"@ =~= seq!['>']);
    assert(display_text(Value::String(e)) =~= "string <"@ + e@ + ">"@);
}

/// Looking for a string in a list is looking for an item with its text.
proof fn lemma_include_string(value: Value, e: String)
    ensures
        include_outcome_spec(value, Value::String(e)) == include_string_outcome(value, e@),
{
    reveal_strlit("string <");
    reveal_strlit(">");
    assert(">"@ =~= seq!['>']);
    assert(display_text(Value::String(e)) =~= "string <"@ + e@ + ">"@);
    if let Value::List(vs) = value {
        assert forall|k: int| 0 <= k < vs@.len() implies (equal_success(#[trigger] vs@[k], Value::String(e))
            <==> (vs@[k] matches Value::String(a) && a@ == e@)) by {
        }
    }
    assert(("includes "@ + display_text(Value::String(e))) =~= ("includes "@ + "string <"@ + e@ + ">"@));
}

/// A label, a text and a closing `>`.
fn closed_label(label: &str, t: &str) -> (s: String)
    ensures
        s@ == label@ + t@ + ">"@,
{
    let mut s = lit(label);
    append_str(&mut s, t);
    proof {
        reveal_strlit(">");
    }
    push_char(&mut s, '>');
    assert(s@ =~= label@ + t@ + ">"@);
    s
}

/// The error of an undefined variable of an expression.
fn undefined(x: &Expr) -> (e: Error)
    ensures
        failure_error(e, Failure::Undefined(x.variable.source_info, x.variable.name@), x.variable.source_info),
{
    Error {
        source_info: x.variable.source_info,
        inner: RunnerError::TemplateVariableNotDefined { name: x.variable.name.clone() },
        assert: false,
    }
}

impl PredicateFunc {
    /// Checks a value against the predicate function.
    pub fn eval_something(self, variables: &Vec<(String, Value)>, value: Value) -> (r: Result<AssertResult, Error>)
        ensures
            match predicate_outcome(self.value, variables@, value) {
                Ok(o) => r matches Ok(a) && outcome_of(a) == o,
                Err(f) => r matches Err(e) && failure_error(e, f, self.source_info),
            },
    {
        let si = self.source_info;
        let ghost fv = self.value;
        match self.value {
            PredicateFuncValue::EqualInt { value: x, .. } => Ok(equal_result(&value, &Value::Integer(x))),
            PredicateFuncValue::EqualNull { .. } => Ok(equal_result(&value, &Value::Null)),
            PredicateFuncValue::EqualBool { value: b, .. } => Ok(equal_result(&value, &Value::Bool(b))),
            PredicateFuncValue::EqualFloat { value: x, .. } => Ok(equal_result(&value, &Value::Float(x.int, x.decimal))),
            PredicateFuncValue::EqualExpression { value: x, .. } => match find_variable(variables, x.variable.name.as_str()) {
                Some(e) => Ok(equal_result(&value, e)),
                None => Err(undefined(&x)),
            },
            PredicateFuncValue::CountEqual { value: n, .. } => {
                let actual = display_of(&value);
                let t = u64_to_string(n);
                let expected = closed_label("count equals to <", t.as_str());
                let (success, type_mismatch) = match &value {
                    Value::List(values) => (values.len() as u64 == n, false),
                    Value::Nodeset(m) => (*m as u64 == n, false),
                    _ => (false, true),
                };
                Ok(AssertResult { success, type_mismatch, actual, expected })
            },
            PredicateFuncValue::IncludeInt { value: x, .. } => Ok(include_result(&value, &Value::Integer(x))),
            PredicateFuncValue::IncludeFloat { value: x, .. } => Ok(include_result(&value, &Value::Float(x.int, x.decimal))),
            PredicateFuncValue::IncludeBool { value: b, .. } => Ok(include_result(&value, &Value::Bool(b))),
            PredicateFuncValue::IncludeNull { .. } => Ok(include_result(&value, &Value::Null)),
            PredicateFuncValue::IncludeExpression { value: x, .. } => match find_variable(variables, x.variable.name.as_str()) {
                Some(e) => Ok(include_result(&value, e)),
                None => Err(undefined(&x)),
            },
            PredicateFuncValue::Exist {} => {
                let success = match &value {
                    Value::Nodeset(n) => *n != 0,
                    _ => true,
                };
                let expected = lit("something");
                Ok(AssertResult { success, type_mismatch: false, actual: display_of(&value), expected })
            },
            PredicateFuncValue::EqualString { value: t, .. } => {
                let expected = match t.eval(variables) {
                    Ok(s) => s,
                    Err(e) => {
                        return Err(e);
                    },
                };
                let ghost es = expected;
                proof {
                    lemma_equal_string(value, es);
                }
                Ok(equal_result(&value, &Value::String(expected)))
            },
            PredicateFuncValue::IncludeString { value: t, .. } => {
                let expected = match t.eval(variables) {
                    Ok(s) => s,
                    Err(e) => {
                        return Err(e);
                    },
                };
                let ghost es = expected;
                proof {
                    lemma_include_string(value, es);
                }
                Ok(include_result(&value, &Value::String(expected)))
            },
            PredicateFuncValue::StartWith { value: t, .. } => {
                let expected = match t.eval(variables) {
                    Ok(s) => s,
                    Err(e) => {
                        return Err(e);
                    },
                };
                let (success, type_mismatch) = match &value {
                    Value::String(a) => (str_starts_with(a.as_str(), expected.as_str()), false),
                    _ => (false, true),
                };
                let label = closed_label("starts with string <", expected.as_str());
                Ok(AssertResult { success, type_mismatch, actual: display_of(&value), expected: label })
            },
            PredicateFuncValue::Contain { value: t, .. } => {
                let expected = match t.eval(variables) {
                    Ok(s) => s,
                    Err(e) => {
                        return Err(e);
                    },
                };
                let (success, type_mismatch) = match &value {
                    Value::String(a) => (str_contains(a.as_str(), expected.as_str()), false),
                    _ => (false, true),
                };
                let label = closed_label("contains string <", expected.as_str());
                Ok(AssertResult { success, type_mismatch, actual: display_of(&value), expected: label })
            },
            PredicateFuncValue::Match { value: t, .. } => {
                let expected = match t.eval(variables) {
                    Ok(s) => s,
                    Err(e) => {
                        return Err(e);
                    },
                };
                proof {
                    reveal_strlit("");
                }
                let text = match &value {
                    Value::String(a) => a.as_str(),
                    _ => "",
                };
                let (success, type_mismatch) = match regex_match(expected.as_str(), text) {
                    None => {
                        return Err(Error { source_info: si, inner: RunnerError::InvalidRegex(), assert: false });
                    },
                    Some(b) => match &value {
                        Value::String(_) => (b, false),
                        _ => (false, true),
                    },
                };
                let label = closed_label("matches regex <", expected.as_str());
                Ok(AssertResult { success, type_mismatch, actual: display_of(&value), expected: label })
            },
        }
    }
}


/// A predicate of an assert: possibly negated, and its function.
#[derive(Clone, Debug, PartialEq, Eq)]
pub struct Predicate {
    pub not: bool,
    pub space0: Whitespace,
    pub predicate_func: PredicateFunc,
}

/// A float as written in a report: integer part, a dot, decimal part.
pub open spec fn float_text(x: Float) -> Seq<char> {
    int_decimal(x.int as int) + seq!['.'] + nat_decimal(x.decimal as nat)
}

/// What a predicate function expects, as written in a report.
pub open spec fn expected_text(f: PredicateFuncValue, vs: Seq<(String, Value)>) -> Result<Seq<char>, Failure> {
    let tpl = |t: Template, label: Seq<char>| match template_text(t@.elements, vs) {
        Ok(s) => Ok(label + s + ">"@),
        Err(u) => Err(Failure::Undefined(u.0, u.1)),
    };
    match f {
        PredicateFuncValue::EqualInt { value: x, .. } => Ok("int <"@ + int_decimal(x as int) + ">"@),
        PredicateFuncValue::EqualFloat { value: x, .. } => Ok("float <"@ + float_text(x) + ">"@),
        PredicateFuncValue::EqualNull { .. } => Ok("null"@),
        PredicateFuncValue::EqualBool { value: b, .. } => Ok("bool <"@ + bool_text(b) + ">"@),
        PredicateFuncValue::EqualString { value: t, .. } => tpl(t, "string <"@),
        PredicateFuncValue::CountEqual { value: n, .. } => Ok("count equals to <"@ + nat_decimal(n as nat) + ">"@),
        PredicateFuncValue::StartWith { value: t, .. } => tpl(t, "starts with string <"@),
        PredicateFuncValue::Contain { value: t, .. } => tpl(t, "contains string <"@),
        PredicateFuncValue::IncludeString { value: t, .. } => tpl(t, "includes string <"@),
        PredicateFuncValue::IncludeInt { value: x, .. } => Ok("includes int <"@ + int_decimal(x as int) + ">"@),
        PredicateFuncValue::IncludeFloat { value: x, .. } => Ok("includes float <"@ + float_text(x) + ">"@),
        PredicateFuncValue::IncludeNull { .. } => Ok("includes null"@),
        PredicateFuncValue::IncludeBool { value: b, .. } => Ok("includes bool <"@ + bool_text(b) + ">"@),
        PredicateFuncValue::Match { value: t, .. } => tpl(t, "matches regex <"@),
        PredicateFuncValue::EqualExpression { value: x, .. } => match var_lookup(vs, x.variable.name@) {
            None => Err(Failure::Undefined(x.variable.source_info, x.variable.name@)),
            Some(_) => Ok("something"@),
        },
        _ => Ok("something"@),
    }
}

/// A predicate function whose expectation can be written or fails: not an expression,
/// but for an equality with an undefined variable, which fails on that variable.
pub open spec fn expected_writable(f: PredicateFuncValue, vs: Seq<(String, Value)>) -> bool {
    match f {
        PredicateFuncValue::EqualExpression { value: x, .. } => var_lookup(vs, x.variable.name@) is None,
        PredicateFuncValue::IncludeExpression { .. } => false,
        _ => true,
    }
}

/// The outcome of a predicate function on a value that may be missing.
pub open spec fn func_outcome(f: PredicateFunc, vs: Seq<(String, Value)>, v: Option<Value>) -> Result<Outcome, Failure> {
    match v {
        None => match expected_text(f.value, vs) {
            Ok(e) => Ok(Outcome { success: false, type_mismatch: !(f.value is Exist), actual: "none"@, expected: e }),
            Err(x) => Err(x),
        },
        Some(v) => predicate_outcome(f.value, vs, v),
    }
}

/// The place an assert failure is reported at: the start of the line of the predicate.
pub open spec fn line_start(line: usize) -> SourceInfo {
    SourceInfo { start: Pos { line, column: 0 }, end: Pos { line, column: 0 } }
}

/// An assert failure reported at the start of a line.
pub open spec fn assert_failure(e: Error, line: usize, actual: Seq<char>, expected: Seq<char>, type_mismatch: bool) -> bool {
    &&& e.assert
    &&& e.source_info == line_start(line)
    &&& e.inner matches RunnerError::AssertFailure { actual: a, expected: x, type_mismatch: t }
    &&& a@ == actual && x@ == expected && t == type_mismatch
}

/// Text with a label before it and `>` after it.
fn label_number(label: &str, t: String) -> (s: String)
    ensures
        s@ == label@ + t@ + ">"@,
{
    closed_label(label, t.as_str())
}

impl PredicateFunc {
    /// What the predicate function expects, as written in a report.
    pub fn expected(self, variables: &Vec<(String, Value)>) -> (r: Result<String, Error>)
        requires
            expected_writable(self.value, variables@),
        ensures
            match expected_text(self.value, variables@) {
                Ok(t) => r matches Ok(s) && s@ == t,
                Err(f) => r matches Err(e) && failure_error(e, f, self.source_info),
            },
    {
        match self.value {
            PredicateFuncValue::EqualInt { value: x, .. } => Ok(label_number("int <", i64_to_string(x))),
            PredicateFuncValue::EqualFloat { value: x, .. } => {
                let mut t = i64_to_string(x.int);
                push_char(&mut t, '.');
                let d = u64_to_string(x.decimal);
                append_str(&mut t, d.as_str());
                Ok(label_number("float <", t))
            },
            PredicateFuncValue::EqualNull { .. } => Ok(lit("null")),
            PredicateFuncValue::EqualBool { value: b, .. } => Ok(label_number("bool <", bool_to_string(b))),
            PredicateFuncValue::CountEqual { value: n, .. } => Ok(label_number("count equals to <", u64_to_string(n))),
            PredicateFuncValue::IncludeInt { value: x, .. } => Ok(label_number("includes int <", i64_to_string(x))),
            PredicateFuncValue::IncludeFloat { value: x, .. } => {
                let mut t = i64_to_string(x.int);
                push_char(&mut t, '.');
                let d = u64_to_string(x.decimal);
                append_str(&mut t, d.as_str());
                Ok(label_number("includes float <", t))
            },
            PredicateFuncValue::IncludeNull { .. } => Ok(lit("includes null")),
            PredicateFuncValue::IncludeBool { value: b, .. } => Ok(label_number("includes bool <", bool_to_string(b))),
            PredicateFuncValue::Exist {} => Ok(lit("something")),
            PredicateFuncValue::EqualString { value: t, .. } => match t.eval(variables) {
                Ok(s) => Ok(label_number("string <", s)),
                Err(e) => Err(e),
            },
            PredicateFuncValue::StartWith { value: t, .. } => match t.eval(variables) {
                Ok(s) => Ok(label_number("starts with string <", s)),
                Err(e) => Err(e),
            },
            PredicateFuncValue::Contain { value: t, .. } => match t.eval(variables) {
                Ok(s) => Ok(label_number("contains string <", s)),
                Err(e) => Err(e),
            },
            PredicateFuncValue::IncludeString { value: t, .. } => match t.eval(variables) {
                Ok(s) => Ok(label_number("includes string <", s)),
                Err(e) => Err(e),
            },
            PredicateFuncValue::Match { value: t, .. } => match t.eval(variables) {
                Ok(s) => Ok(label_number("matches regex <", s)),
                Err(e) => Err(e),
            },
            PredicateFuncValue::EqualExpression { value: x, .. } => match find_variable(variables, x.variable.name.as_str()) {
                None => Err(undefined(&x)),
                Some(_) => {
                    assert(false);
                    Ok(String::new())
                },
            },
            PredicateFuncValue::IncludeExpression { .. } => {
                assert(false);
                Ok(String::new())
            },
        }
    }

    /// Checks a value, possibly missing, against the predicate function.
    pub fn eval(self, variables: &Vec<(String, Value)>, optional_value: Option<Value>) -> (r: Result<AssertResult, Error>)
        requires
            optional_value is None ==> expected_writable(self.value, variables@),
        ensures
            match func_outcome(self, variables@, optional_value) {
                Ok(o) => r matches Ok(a) && outcome_of(a) == o,
                Err(f) => r matches Err(e) && failure_error(e, f, self.source_info),
            },
    {
        match optional_value {
            None => {
                let type_mismatch = match self.value {
                    PredicateFuncValue::Exist {} => false,
                    _ => true,
                };
                let expected = match self.expected(variables) {
                    Ok(s) => s,
                    Err(e) => {
                        return Err(e);
                    },
                };
                Ok(AssertResult { success: false, type_mismatch, actual: lit("none"), expected })
            },
            Some(value) => self.eval_something(variables, value),
        }
    }
}

/// What checking a value, possibly missing, against a predicate gives: an error when the
/// types do not match, when a negated check holds, or when a check fails.
pub open spec fn predicate_checked(p: Predicate, vs: Seq<(String, Value)>, v: Option<Value>, r: Result<(), Error>) -> bool {
    match func_outcome(p.predicate_func, vs, v) {
        Err(f) => r matches Err(e) && failure_error(e, f, p.predicate_func.source_info),
        Ok(o) => {
            let line = p.space0.source_info.start.line;
            if o.type_mismatch {
                r matches Err(e) && assert_failure(e, line, o.actual, o.expected, true)
            } else if p.not && o.success {
                r matches Err(e) && assert_failure(e, line, o.actual, "not "@ + o.expected, false)
            } else if !p.not && !o.success {
                r matches Err(e) && assert_failure(e, line, o.actual, o.expected, false)
            } else {
                r is Ok
            }
        },
    }
}

impl Predicate {
    /// Checks a value, possibly missing, against the predicate: an error when the types
    /// do not match, when a negated check holds, or when a check fails.
    pub fn eval(self, variables: &Vec<(String, Value)>, value: Option<Value>) -> (r: Result<(), Error>)
        requires
            value is None ==> expected_writable(self.predicate_func.value, variables@),
        ensures
            predicate_checked(self, variables@, value, r),
    {
        let line = self.space0.source_info.start.line;
        let not = self.not;
        let a = match self.predicate_func.eval(variables, value) {
            Ok(a) => a,
            Err(e) => {
                return Err(e);
            },
        };
        let source_info = SourceInfo { start: Pos { line, column: 0 }, end: Pos { line, column: 0 } };
        if a.type_mismatch {
            Err(Error {
                source_info,
                inner: RunnerError::AssertFailure { actual: a.actual, expected: a.expected, type_mismatch: true },
                assert: true,
            })
        } else if not && a.success {
            let mut expected = lit("not ");
            append_str(&mut expected, a.expected.as_str());
            Err(Error {
                source_info,
                inner: RunnerError::AssertFailure { actual: a.actual, expected, type_mismatch: false },
                assert: true,
            })
        } else if !not && !a.success {
            Err(Error {
                source_info,
                inner: RunnerError::AssertFailure { actual: a.actual, expected: a.expected, type_mismatch: false },
                assert: true,
            })
        } else {
            Ok(())
        }
    }
}


/// `t` occurs in `s` exactly when `s` is some text, then `t`, then some text.
proof fn lemma_contains_split(s: Seq<char>, t: Seq<char>)
    ensures
        contains_seq(s, t) <==> exists|p: Seq<char>, q: Seq<char>| s == p + t + q,
{
    if contains_seq(s, t) {
        let i = choose|i: int| crate::text::occurs_at(s, t, i);
        let p = s.take(i);
        let q = s.skip(i + t.len());
        assert(s =~= p + t + q);
    }
    if exists|p: Seq<char>, q: Seq<char>| s == p + t + q {
        let (p, q) = choose|p: Seq<char>, q: Seq<char>| s == p + t + q;
        assert(s.subrange(p.len() as int, (p.len() + t.len()) as int) =~= t);
        assert(crate::text::occurs_at(s, t, p.len() as int));
    }
}

/// `s` starts with `t` exactly when `s` is `t` then some text.
proof fn lemma_starts_split(s: Seq<char>, t: Seq<char>)
    ensures
        starts_with_seq(s, t) <==> exists|q: Seq<char>| s == t + q,
{
    if starts_with_seq(s, t) {
        let q = s.skip(t.len() as int);
        assert(s =~= t + q);
    }
    if exists|q: Seq<char>| s == t + q {
        let q = choose|q: Seq<char>| s == t + q;
        assert(s.subrange(0, t.len() as int) =~= t);
    }
}

/// `contains` on a string succeeds exactly when the expected text occurs in it: the
/// string is some text, then the expected text, then some text; the types match.
pub proof fn law_contain_on_string(space0: Whitespace, t: Template, vs: Seq<(String, Value)>, a: String)
    requires
        template_text(t@.elements, vs) is Ok,
    ensures
        predicate_outcome(PredicateFuncValue::Contain { space0, value: t }, vs, Value::String(a)) is Ok,
        predicate_outcome(PredicateFuncValue::Contain { space0, value: t }, vs, Value::String(a))->Ok_0.success
            <==> exists|p: Seq<char>, q: Seq<char>| a@ == p + template_text(t@.elements, vs)->Ok_0 + q,
        !predicate_outcome(PredicateFuncValue::Contain { space0, value: t }, vs, Value::String(a))->Ok_0.type_mismatch,
{
    lemma_contains_split(a@, template_text(t@.elements, vs)->Ok_0);
}

/// `startsWith` on a string succeeds exactly when the string is the expected text then
/// some text; the types match.
pub proof fn law_start_with_on_string(space0: Whitespace, t: Template, vs: Seq<(String, Value)>, a: String)
    requires
        template_text(t@.elements, vs) is Ok,
    ensures
        predicate_outcome(PredicateFuncValue::StartWith { space0, value: t }, vs, Value::String(a)) is Ok,
        predicate_outcome(PredicateFuncValue::StartWith { space0, value: t }, vs, Value::String(a))->Ok_0.success
            <==> exists|q: Seq<char>| a@ == template_text(t@.elements, vs)->Ok_0 + q,
        !predicate_outcome(PredicateFuncValue::StartWith { space0, value: t }, vs, Value::String(a))->Ok_0.type_mismatch,
{
    lemma_starts_split(a@, template_text(t@.elements, vs)->Ok_0);
}

/// `equals` with a string succeeds on a string exactly when both texts are the same.
pub proof fn law_equal_string_on_string(space0: Whitespace, t: Template, vs: Seq<(String, Value)>, a: String)
    requires
        template_text(t@.elements, vs) is Ok,
    ensures
        predicate_outcome(PredicateFuncValue::EqualString { space0, value: t }, vs, Value::String(a)) is Ok,
        predicate_outcome(PredicateFuncValue::EqualString { space0, value: t }, vs, Value::String(a))->Ok_0.success
            <==> a@ == template_text(t@.elements, vs)->Ok_0,
{
}

/// A string test on a value that is not a string fails, as a type mismatch.
pub proof fn law_string_test_needs_string(space0: Whitespace, t: Template, vs: Seq<(String, Value)>, v: Value)
    requires
        template_text(t@.elements, vs) is Ok,
        !(v is String),
    ensures
        predicate_outcome(PredicateFuncValue::Contain { space0, value: t }, vs, v) matches Ok(o) && !o.success && o.type_mismatch,
        predicate_outcome(PredicateFuncValue::StartWith { space0, value: t }, vs, v) matches Ok(o) && !o.success && o.type_mismatch,
{
}


/// `equals` with an integer holds on an integer exactly when both are the same number,
/// and on a float exactly when the float has that integer part and no decimal part; on
/// any other kind of value it fails as a type mismatch.
pub proof fn law_equal_int(space0: Whitespace, x: i64, vs: Seq<(String, Value)>, v: Value)
    ensures
        predicate_outcome(PredicateFuncValue::EqualInt { space0, value: x }, vs, v) matches Ok(o) && match v {
            Value::Integer(y) => (o.success <==> y == x) && !o.type_mismatch,
            Value::Float(i, d) => (o.success <==> (i == x && d == 0)) && !o.type_mismatch,
            _ => !o.success && o.type_mismatch,
        },
{
}

/// `equals` with a boolean holds exactly on that boolean; `equals null` exactly on null.
pub proof fn law_equal_bool_null(space0: Whitespace, b: bool, vs: Seq<(String, Value)>, v: Value)
    ensures
        predicate_outcome(PredicateFuncValue::EqualBool { space0, value: b }, vs, v) matches Ok(o)
            && (o.success <==> v == Value::Bool(b)) && (o.type_mismatch <==> !(v is Bool)),
        predicate_outcome(PredicateFuncValue::EqualNull { space0 }, vs, v) matches Ok(o)
            && (o.success <==> v is Null) && (o.type_mismatch <==> !(v is Null)),
{
}

/// `countEquals n` holds on a list of exactly `n` items and on a node set of exactly `n`
/// nodes; on any other kind of value it fails as a type mismatch.
pub proof fn law_count_equal(space0: Whitespace, n: u64, vs: Seq<(String, Value)>, v: Value)
    ensures
        predicate_outcome(PredicateFuncValue::CountEqual { space0, value: n }, vs, v) matches Ok(o) && match v {
            Value::List(items) => (o.success <==> items@.len() == n) && !o.type_mismatch,
            Value::Nodeset(m) => (o.success <==> m == n) && !o.type_mismatch,
            _ => !o.success && o.type_mismatch,
        },
{
}

/// `includes` with a text holds on a list exactly when one of its items is a string with
/// that text.
pub proof fn law_include_string(space0: Whitespace, t: Template, vs: Seq<(String, Value)>, items: Vec<Value>)
    requires
        template_text(t@.elements, vs) is Ok,
    ensures
        predicate_outcome(PredicateFuncValue::IncludeString { space0, value: t }, vs, Value::List(items)) matches Ok(o)
            && !o.type_mismatch
            && (o.success <==> exists|k: int| 0 <= k < items@.len()
                && (#[trigger] items@[k] matches Value::String(x) && x@ == template_text(t@.elements, vs)->Ok_0)),
{
}

/// `exists` holds on every value but an empty node set, and never mismatches.
pub proof fn law_exist(vs: Seq<(String, Value)>, v: Value)
    ensures
        predicate_outcome(PredicateFuncValue::Exist {}, vs, v) matches Ok(o)
            && (o.success <==> v != Value::Nodeset(0)) && !o.type_mismatch,
        func_outcome(PredicateFunc { source_info: SourceInfo { start: Pos { line: 0, column: 0 }, end: Pos { line: 0, column: 0 } }, value: PredicateFuncValue::Exist {} }, vs, None)
            matches Ok(o) && !o.success && !o.type_mismatch,
{
}

/// A predicate passes exactly when its function's check has matching types and holds,
/// or, for a negated predicate, has matching types and does not hold.
pub proof fn law_predicate_passes(p: Predicate, vs: Seq<(String, Value)>, v: Option<Value>, r: Result<(), Error>)
    requires
        predicate_checked(p, vs, v, r),
        func_outcome(p.predicate_func, vs, v) is Ok,
    ensures
        r is Ok <==> (!func_outcome(p.predicate_func, vs, v)->Ok_0.type_mismatch
            && func_outcome(p.predicate_func, vs, v)->Ok_0.success != p.not),
{
}


/// `includes` with an integer, a boolean or null holds on a list exactly when one of its
/// items equals it (a float item with that integer part and no decimal part equals an
/// integer); on any other kind of value it fails as a type mismatch.
pub proof fn law_include_scalar(space0: Whitespace, x: i64, b: bool, vs: Seq<(String, Value)>, v: Value)
    ensures
        predicate_outcome(PredicateFuncValue::IncludeInt { space0, value: x }, vs, v) matches Ok(o) && match v {
            Value::List(items) => !o.type_mismatch && (o.success <==> exists|k: int| 0 <= k < items@.len()
                && (#[trigger] items@[k] == Value::Integer(x) || (items@[k] matches Value::Float(i, d) && i == x && d == 0))),
            _ => !o.success && o.type_mismatch,
        },
        predicate_outcome(PredicateFuncValue::IncludeBool { space0, value: b }, vs, v) matches Ok(o) && match v {
            Value::List(items) => !o.type_mismatch && (o.success <==> exists|k: int| 0 <= k < items@.len()
                && #[trigger] items@[k] == Value::Bool(b)),
            _ => !o.success && o.type_mismatch,
        },
        predicate_outcome(PredicateFuncValue::IncludeNull { space0 }, vs, v) matches Ok(o) && match v {
            Value::List(items) => !o.type_mismatch && (o.success <==> exists|k: int| 0 <= k < items@.len()
                && #[trigger] items@[k] == Value::Null),
            _ => !o.success && o.type_mismatch,
        },
{
    if v is List {
        let items = v->List_0;
        assert forall|k: int| 0 <= k < items@.len() implies
            (equal_success(#[trigger] items@[k], Value::Integer(x)) <==> (items@[k] == Value::Integer(x)
                || (items@[k] matches Value::Float(i, d) && i == x && d == 0))) by {
        }
    }
}

} // verus!
