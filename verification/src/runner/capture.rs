use vstd::prelude::*;

use crate::common::{SourceInfo, Value};
use crate::json::{Template, Whitespace};
use crate::runner::json_eval::{template_text, undefined_error};
use crate::runner::query::Query;
use crate::runner::results::{CaptureResult, Error, RunnerError};
use crate::text::{regex_capture1, regex_first_capture, regex_valid};

verus! {

/// What a subquery does to a captured value.
#[derive(Clone, Debug, PartialEq, Eq)]
pub enum SubqueryValue {
    Regex { space0: Whitespace, expr: Template },
}

/// A subquery and where it is written.
#[derive(Clone, Debug, PartialEq, Eq)]
pub struct Subquery {
    pub source_info: SourceInfo,
    pub value: SubqueryValue,
}

/// A capture: the variable's name, the query, and a subquery on the query's value.
#[derive(Clone, Debug, PartialEq, Eq)]
pub struct Capture {
    pub name: String,
    pub query: Query,
    pub subquery: Option<Subquery>,
}

/// What a subquery gives on a value, as plain values.
pub enum SubqueryModel {
    Undefined(SourceInfo, Seq<char>),
    InvalidRegex(SourceInfo),
    InvalidInput(SourceInfo),
    Found(Seq<char>),
    NotFound,
}

/// What a subquery gives on a value: the first group of the regex's match in a string;
/// an undefined variable in the regex, a regex that does not parse, or a value that is
/// no string, is an error.
pub open spec fn subquery_model(sq: Subquery, vs: Seq<(String, Value)>, v: Value) -> SubqueryModel {
    match sq.value {
        SubqueryValue::Regex { expr, .. } => match template_text(expr@.elements, vs) {
            Err(u) => SubqueryModel::Undefined(u.0, u.1),
            Ok(x) => match v {
                Value::String(s) => if !regex_valid(x) {
                    SubqueryModel::InvalidRegex(expr.source_info)
                } else {
                    match regex_capture1(x, s@) {
                        Some(g) => SubqueryModel::Found(g),
                        None => SubqueryModel::NotFound,
                    }
                },
                _ => SubqueryModel::InvalidInput(sq.source_info),
            },
        },
    }
}

/// The error of a subquery that failed.
pub open spec fn subquery_error(m: SubqueryModel, e: Error) -> bool {
    match m {
        SubqueryModel::Undefined(si, n) => undefined_error(e, (si, n)),
        SubqueryModel::InvalidRegex(si) => e.source_info == si && !e.assert && e.inner is InvalidRegex,
        SubqueryModel::InvalidInput(si) => e.source_info == si && !e.assert && e.inner is SubqueryInvalidInput,
        _ => false,
    }
}

/// The result of a subquery as its model gives it.
pub open spec fn subquery_answer(m: SubqueryModel, r: Result<Option<Value>, Error>) -> bool {
    match m {
        SubqueryModel::Found(g) => r matches Ok(Some(Value::String(t))) && t@ == g,
        SubqueryModel::NotFound => r matches Ok(None),
        _ => r matches Err(e) && subquery_error(m, e),
    }
}

impl Subquery {
    /// Runs the subquery on a value.
    pub fn eval(self, variables: &Vec<(String, Value)>, value: Value) -> (r: Result<Option<Value>, Error>)
        ensures
            subquery_answer(subquery_model(self, variables@, value), r),
    {
        let source_info = self.source_info;
        match self.value {
            SubqueryValue::Regex { expr, .. } => {
                let expr_source_info = expr.source_info;
                let x = match expr.eval(variables) {
                    Ok(x) => x,
                    Err(e) => return Err(e),
                };
                match value {
                    Value::String(s) => match regex_first_capture(x.as_str(), s.as_str()) {
                        Some(Some(g)) => Ok(Some(Value::String(g))),
                        Some(None) => Ok(None),
                        None => Err(Error { source_info: expr_source_info, inner: RunnerError::InvalidRegex(), assert: false }),
                    },
                    _ => Err(Error { source_info, inner: RunnerError::SubqueryInvalidInput, assert: false }),
                }
            },
        }
    }
}

/// A capture succeeds on what its query gave: a value, which its subquery, if any, finds
/// something in.
pub open spec fn capture_succeeds(c: Capture, vs: Seq<(String, Value)>, a: Result<Option<Value>, Error>) -> bool {
    &&& a matches Ok(Some(v))
    &&& match c.subquery {
        None => true,
        Some(sq) => subquery_model(sq, vs, a->Ok_0->Some_0) is Found,
    }
}

/// The captured value: the query's value, or what the subquery found in it.
pub open spec fn capture_gives(c: Capture, vs: Seq<(String, Value)>, a: Result<Option<Value>, Error>, cr: CaptureResult) -> bool {
    &&& a matches Ok(Some(v))
    &&& cr.name@ == c.name@
    &&& match c.subquery {
        None => cr.value == a->Ok_0->Some_0,
        Some(sq) => subquery_model(sq, vs, a->Ok_0->Some_0) matches SubqueryModel::Found(g)
            && (cr.value matches Value::String(t) && t@ == g),
    }
}

/// Why a capture fails: the query's error, no value, the subquery's error, or nothing
/// found by the subquery.
pub open spec fn capture_fails(c: Capture, vs: Seq<(String, Value)>, a: Result<Option<Value>, Error>, e: Error) -> bool {
    match a {
        Err(f) => e == f,
        Ok(None) => e.source_info == c.query.source_info && !e.assert && e.inner is NoQueryResult,
        Ok(Some(v)) => c.subquery matches Some(sq) && match subquery_model(sq, vs, v) {
            SubqueryModel::NotFound => e.source_info == sq.source_info && !e.assert && e.inner is NoQueryResult,
            m => subquery_error(m, e),
        },
    }
}

impl Capture {
    /// The captured value and its name, given what the capture's query gave on the
    /// response.
    pub fn eval(self, variables: &Vec<(String, Value)>, actual: Result<Option<Value>, Error>) -> (r: Result<CaptureResult, Error>)
        ensures
            capture_succeeds(self, variables@, actual) ==> (r matches Ok(cr) && capture_gives(self, variables@, actual, cr)),
            !capture_succeeds(self, variables@, actual) ==> (r matches Err(e) && capture_fails(self, variables@, actual, e)),
    {
        let name = self.name;
        let value = match actual {
            Err(e) => return Err(e),
            Ok(None) => {
                return Err(Error { source_info: self.query.source_info, inner: RunnerError::NoQueryResult, assert: false });
            },
            Ok(Some(value)) => value,
        };
        match self.subquery {
            None => Ok(CaptureResult { name, value }),
            Some(subquery) => {
                let source_info = subquery.source_info;
                match subquery.eval(variables, value) {
                    Err(e) => Err(e),
                    Ok(None) => Err(Error { source_info, inner: RunnerError::NoQueryResult, assert: false }),
                    Ok(Some(value)) => Ok(CaptureResult { name, value }),
                }
            },
        }
    }
}

} // verus!
