use vstd::prelude::*;

use crate::common::{value_text, Value};
use crate::runner::json_eval::var_lookup;
use crate::runner::predicate::{same_value, value_eq};
use crate::runner::results::{copy_error, same_runner_error, AssertResult, CaptureResult, Error, RunnerError};
use crate::text::{nat_decimal, str_eq, u64_to_string};

verus! {

/// Whether an assert result counts as failed when reported: a version or a status that
/// differs, and every body or explicit assert.
pub open spec fn assert_fails(a: AssertResult) -> bool {
    match a {
        AssertResult::Version { actual, expected, .. } => actual@ != expected@,
        AssertResult::Status { actual, expected, .. } => actual != expected,
        AssertResult::Header { .. } => false,
        AssertResult::Explicit { .. } => true,
        AssertResult::Body { .. } => true,
    }
}

/// The error of an assert result, if it failed: a version other than the expected one
/// (unless any is accepted), another status, another header value or body, or the
/// error that an assert's query or predicate raised.
pub open spec fn assert_error(a: AssertResult, r: Option<Error>) -> bool {
    match a {
        AssertResult::Version { actual, expected, source_info } => if expected@ == "*"@ || actual@ == expected@ {
            r is None
        } else {
            r matches Some(e) && e.source_info == source_info && !e.assert
                && (e.inner matches RunnerError::AssertVersion { actual: x } && x@ == actual@)
        },
        AssertResult::Status { actual, expected, source_info } => if actual == expected {
            r is None
        } else {
            r matches Some(e) && e.source_info == source_info && !e.assert
                && (e.inner matches RunnerError::AssertStatus { actual: x } && x@ == nat_decimal(actual as nat))
        },
        AssertResult::Header { actual, expected, source_info } => match actual {
            Err(e) => r == Some(e),
            Ok(s) => if s@ == expected@ {
                r is None
            } else {
                r matches Some(e) && e.source_info == source_info && !e.assert
                    && (e.inner matches RunnerError::AssertHeaderValueError { actual: x } && x@ == s@)
            },
        },
        AssertResult::Body { actual, expected, source_info } => match expected {
            Err(e) => r == Some(e),
            Ok(x) => match actual {
                Err(e) => r == Some(e),
                Ok(y) => if same_value(y, x) {
                    r is None
                } else {
                    r matches Some(e) && e.source_info == source_info && !e.assert
                        && (e.inner matches RunnerError::AssertBodyValueError { actual: a, expected: b }
                            && a@ == value_text(y) && b@ == value_text(x))
                },
            },
        },
        AssertResult::Explicit { actual, predicate_result, .. } => match actual {
            Err(e) => r == Some(e),
            Ok(_) => match predicate_result {
                Some(Err(e)) => r == Some(e),
                _ => r is None,
            },
        },
    }
}

impl AssertResult {
    /// Whether the result counts as failed when reported.
    pub fn fail(self) -> (b: bool)
        ensures
            b == assert_fails(self),
    {
        match self {
            AssertResult::Version { actual, expected, .. } => !str_eq(actual.as_str(), expected.as_str()),
            AssertResult::Status { actual, expected, .. } => actual != expected,
            AssertResult::Header { .. } => false,
            AssertResult::Explicit { .. } => true,
            AssertResult::Body { .. } => true,
        }
    }

    /// The error of the result, if the assert failed.
    pub fn error(self) -> (r: Option<Error>)
        ensures
            assert_error(self, r),
    {
        proof {
            reveal_strlit("*");
        }
        match self {
            AssertResult::Version { actual, expected, source_info } => {
                if str_eq(expected.as_str(), "*") || str_eq(actual.as_str(), expected.as_str()) {
                    None
                } else {
                    Some(Error { source_info, inner: RunnerError::AssertVersion { actual }, assert: false })
                }
            },
            AssertResult::Status { actual, expected, source_info } => {
                if actual == expected {
                    None
                } else {
                    Some(Error { source_info, inner: RunnerError::AssertStatus { actual: u64_to_string(actual) }, assert: false })
                }
            },
            AssertResult::Header { actual, expected, source_info } => match actual {
                Err(e) => Some(e),
                Ok(s) => {
                    if str_eq(s.as_str(), expected.as_str()) {
                        None
                    } else {
                        Some(Error { source_info, inner: RunnerError::AssertHeaderValueError { actual: s }, assert: false })
                    }
                },
            },
            AssertResult::Body { actual, expected, source_info } => match expected {
                Err(e) => Some(e),
                Ok(x) => match actual {
                    Err(e) => Some(e),
                    Ok(y) => {
                        if value_eq(&y, &x) {
                            None
                        } else {
                            let actual = y.to_string();
                            let expected = x.to_string();
                            Some(Error { source_info, inner: RunnerError::AssertBodyValueError { actual, expected }, assert: false })
                        }
                    },
                },
            },
            AssertResult::Explicit { actual, predicate_result, .. } => match actual {
                Err(e) => Some(e),
                Ok(_) => match predicate_result {
                    Some(Err(e)) => Some(e),
                    _ => None,
                },
            },
        }
    }
}


/// Whether an assert result has an error.
pub open spec fn has_error(a: AssertResult) -> bool {
    match a {
        AssertResult::Version { actual, expected, .. } => !(expected@ == "*"@ || actual@ == expected@),
        AssertResult::Status { actual, expected, .. } => actual != expected,
        AssertResult::Header { actual, expected, .. } => match actual {
            Err(_) => true,
            Ok(s) => s@ != expected@,
        },
        AssertResult::Body { actual, expected, .. } => match expected {
            Err(_) => true,
            Ok(x) => match actual {
                Err(_) => true,
                Ok(y) => !same_value(y, x),
            },
        },
        AssertResult::Explicit { actual, predicate_result, .. } => actual is Err || predicate_result matches Some(Err(_)),
    }
}

/// `e` is the error of the assert result, marked as raised by an assert.
pub open spec fn raised(a: AssertResult, e: Error) -> bool {
    &&& e.assert
    &&& exists|b: bool| assert_error(a, Some(Error { source_info: e.source_info, inner: e.inner, assert: b }))
}

/// The errors of the assert results that failed, in order, each marked as raised by an
/// assert.
pub open spec fn errors_of(asserts: Seq<AssertResult>, errs: Seq<Error>) -> bool
    decreases asserts.len(),
{
    if asserts.len() == 0 {
        errs.len() == 0
    } else if has_error(asserts.last()) {
        errs.len() > 0 && raised(asserts.last(), errs.last()) && errors_of(asserts.drop_last(), errs.drop_last())
    } else {
        errors_of(asserts.drop_last(), errs)
    }
}

/// The errors of the assert results that failed, in order, each marked as raised by an
/// assert.
pub fn assert_errors(asserts: Vec<AssertResult>) -> (r: Vec<Error>)
    ensures
        errors_of(asserts@, r@),
{
    let ghost all = asserts@;
    let mut rest = asserts;
    let mut errs: Vec<Error> = Vec::new();
    let n = rest.len();
    let mut i: usize = 0;
    assert(all.take(0) =~= Seq::<AssertResult>::empty());
    while i < n
        invariant
            n == all.len(),
            i <= n,
            rest@ == all.skip(i as int),
            errors_of(all.take(i as int), errs@),
        decreases n - i,
    {
        assert(all.skip(i as int)[0] == all[i as int]);
        let a = rest.remove(0);
        assert(all.skip(i as int).remove(0) =~= all.skip(i + 1));
        let ghost a0 = a;
        assert(all.take(i + 1).drop_last() =~= all.take(i as int));
        assert(all.take(i + 1).last() == a0);
        match a.error() {
            Some(e0) => {
                let ghost g = e0;
                let e = Error { source_info: e0.source_info, inner: e0.inner, assert: true };
                assert(Error { source_info: e.source_info, inner: e.inner, assert: g.assert } == g);
                assert(raised(a0, e));
                assert(has_error(a0));
                let ghost before = errs@;
                errs.push(e);
                assert(errs@.drop_last() =~= before);
            },
            None => {
                assert(!has_error(a0));
            },
        }
        i += 1;
    }
    assert(all.take(n as int) =~= all);
    errs
}


/// `e` is a copy of the error of the assert result, marked as raised by an assert.
pub open spec fn raised_copy(a: AssertResult, e: Error) -> bool {
    &&& e.assert
    &&& exists|f: Error| #[trigger] assert_error(a, Some(f)) && f.source_info == e.source_info && same_runner_error(f.inner, e.inner)
}

/// Copies of the errors of the assert results that failed, in order, each marked as
/// raised by an assert.
pub open spec fn errors_copied(asserts: Seq<AssertResult>, errs: Seq<Error>) -> bool
    decreases asserts.len(),
{
    if asserts.len() == 0 {
        errs.len() == 0
    } else if has_error(asserts.last()) {
        errs.len() > 0 && raised_copy(asserts.last(), errs.last()) && errors_copied(asserts.drop_last(), errs.drop_last())
    } else {
        errors_copied(asserts.drop_last(), errs)
    }
}

/// A copy of the error of an assert result, if the assert failed, marked as raised by an
/// assert.
fn error_copy(a: &AssertResult) -> (r: Option<Error>)
    ensures
        r is Some <==> has_error(*a),
        r matches Some(e) ==> raised_copy(*a, e),
{
    proof {
        reveal_strlit("*");
    }
    match a {
        AssertResult::Version { actual, expected, source_info } => {
            if str_eq(expected.as_str(), "*") || str_eq(actual.as_str(), expected.as_str()) {
                None
            } else {
                let f = Error { source_info: *source_info, inner: RunnerError::AssertVersion { actual: actual.clone() }, assert: false };
                assert(assert_error(*a, Some(f)));
                Some(Error { source_info: *source_info, inner: RunnerError::AssertVersion { actual: actual.clone() }, assert: true })
            }
        },
        AssertResult::Status { actual, expected, source_info } => {
            if *actual == *expected {
                None
            } else {
                let f = Error { source_info: *source_info, inner: RunnerError::AssertStatus { actual: u64_to_string(*actual) }, assert: false };
                assert(assert_error(*a, Some(f)));
                Some(Error { source_info: *source_info, inner: RunnerError::AssertStatus { actual: u64_to_string(*actual) }, assert: true })
            }
        },
        AssertResult::Header { actual, expected, source_info } => match actual {
            Err(e) => {
                let c = copy_error(e);
                assert(assert_error(*a, Some(*e)));
                Some(Error { source_info: c.source_info, inner: c.inner, assert: true })
            },
            Ok(s) => {
                if str_eq(s.as_str(), expected.as_str()) {
                    None
                } else {
                    let f = Error { source_info: *source_info, inner: RunnerError::AssertHeaderValueError { actual: s.clone() }, assert: false };
                    assert(assert_error(*a, Some(f)));
                    Some(Error { source_info: *source_info, inner: RunnerError::AssertHeaderValueError { actual: s.clone() }, assert: true })
                }
            },
        },
        AssertResult::Body { actual, expected, source_info } => match expected {
            Err(e) => {
                let c = copy_error(e);
                assert(assert_error(*a, Some(*e)));
                Some(Error { source_info: c.source_info, inner: c.inner, assert: true })
            },
            Ok(x) => match actual {
                Err(e) => {
                    let c = copy_error(e);
                    assert(assert_error(*a, Some(*e)));
                    Some(Error { source_info: c.source_info, inner: c.inner, assert: true })
                },
                Ok(y) => {
                    if value_eq(y, x) {
                        None
                    } else {
                        let f = Error {
                            source_info: *source_info,
                            inner: RunnerError::AssertBodyValueError { actual: y.to_string(), expected: x.to_string() },
                            assert: false,
                        };
                        assert(assert_error(*a, Some(f)));
                        Some(Error {
                            source_info: *source_info,
                            inner: RunnerError::AssertBodyValueError { actual: y.to_string(), expected: x.to_string() },
                            assert: true,
                        })
                    }
                },
            },
        },
        AssertResult::Explicit { actual, predicate_result, .. } => match actual {
            Err(e) => {
                let c = copy_error(e);
                assert(assert_error(*a, Some(*e)));
                Some(Error { source_info: c.source_info, inner: c.inner, assert: true })
            },
            Ok(_) => match predicate_result {
                Some(Err(e)) => {
                    let c = copy_error(e);
                    assert(assert_error(*a, Some(*e)));
                    Some(Error { source_info: c.source_info, inner: c.inner, assert: true })
                },
                _ => None,
            },
        },
    }
}

/// Copies of the errors of the assert results that failed, in order, each marked as
/// raised by an assert.
pub fn assert_errors_copied(asserts: &Vec<AssertResult>) -> (r: Vec<Error>)
    ensures
        errors_copied(asserts@, r@),
{
    let mut errs: Vec<Error> = Vec::new();
    let mut i: usize = 0;
    assert(asserts@.take(0) =~= Seq::<AssertResult>::empty());
    while i < asserts.len()
        invariant
            i <= asserts.len(),
            errors_copied(asserts@.take(i as int), errs@),
        decreases asserts.len() - i,
    {
        assert(asserts@.take(i + 1).drop_last() =~= asserts@.take(i as int));
        assert(asserts@.take(i + 1).last() == asserts@[i as int]);
        match error_copy(&asserts[i]) {
            Some(e) => {
                let ghost before = errs@;
                errs.push(e);
                assert(errs@.drop_last() =~= before);
            },
            None => {},
        }
        i += 1;
    }
    assert(asserts@.take(asserts.len() as int) =~= asserts@);
    errs
}

} // verus!
