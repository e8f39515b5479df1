use vstd::prelude::*;

use crate::common::Value;
use crate::http::libcurl::Cookie;
use crate::runner::json_eval::var_lookup;
use crate::runner::results::{entries_errors, EntryResult, Error, HurlResult};
use crate::runner::variables::{insert_variable, unique_names};

verus! {

/// How many entries a run goes through at most: all of them, or the first `to_entry`.
pub open spec fn run_length(n: usize, to_entry: Option<usize>) -> int {
    match to_entry {
        Some(t) => if t < n { t as int } else { n as int },
        None => n as int,
    }
}

/// A run that fails fast stops after an entry with an error.
pub open spec fn stopped(fail_fast: bool, done: Seq<EntryResult>) -> bool {
    fail_fast && done.len() > 0 && done.last().errors@.len() > 0
}

/// The index of the entry to run next, given the results so far, or nothing when the
/// run is over: after `to_entry` entries (or all `n`), or after an entry with an error
/// when the run fails fast.
pub fn next_entry(n: usize, to_entry: Option<usize>, fail_fast: bool, done: &Vec<EntryResult>) -> (a: Option<usize>)
    ensures
        a == (if done@.len() < run_length(n, to_entry) && !stopped(fail_fast, done@) {
            Some(done@.len() as usize)
        } else {
            None::<usize>
        }),
{
    let limit = match to_entry {
        Some(t) => if t < n { t } else { n },
        None => n,
    };
    if done.len() >= limit {
        return None;
    }
    if fail_fast && done.len() > 0 && done[done.len() - 1].errors.len() > 0 {
        return None;
    }
    Some(done.len())
}

/// The result of a run: its file, the results of the entries it ran, its time and the
/// cookies left in the client; it succeeds when no entry has an error.
pub fn hurl_result(filename: String, entries: Vec<EntryResult>, time_in_ms: u128, cookies: Vec<Cookie>) -> (h: HurlResult)
    ensures
        h.filename == filename,
        h.entries == entries,
        h.time_in_ms == time_in_ms,
        h.cookies == cookies,
        h.success == (entries_errors(entries@).len() == 0),
{
    let mut h = HurlResult { filename, entries, time_in_ms, success: false, cookies };
    h.success = h.success();
    h
}

/// The variables a run starts with: each given value as a string, the later of two of
/// one name winning.
pub fn initial_variables(given: Vec<(String, String)>) -> (r: Vec<(String, Value)>)
    ensures
        unique_names(r@),
        forall|m: Seq<char>| #[trigger] var_lookup(r@, m) == (match last_given(given@, m) {
            Some(v) => Some(Value::String(v)),
            None => None::<Value>,
        }),
{
    let ghost all = given@;
    let mut rest = given;
    let mut r: Vec<(String, Value)> = Vec::new();
    let n = rest.len();
    let mut i: usize = 0;
    assert(all.take(0) =~= Seq::<(String, String)>::empty());
    while i < n
        invariant
            n == all.len(),
            i <= n,
            rest@ == all.skip(i as int),
            unique_names(r@),
            forall|m: Seq<char>| #[trigger] var_lookup(r@, m) == (match last_given(all.take(i as int), m) {
                Some(v) => Some(Value::String(v)),
                None => None::<Value>,
            }),
        decreases n - i,
    {
        assert(all.skip(i as int)[0] == all[i as int]);
        let (name, value) = rest.remove(0);
        assert(all.skip(i as int).remove(0) =~= all.skip(i + 1));
        let ghost before = r@;
        let ghost nm = name@;
        let ghost vv = value;
        insert_variable(&mut r, name, Value::String(value));
        proof {
            assert(all.take(i + 1).drop_last() =~= all.take(i as int));
            assert(all.take(i + 1).last() == all[i as int]);
            assert forall|m: Seq<char>| #[trigger] var_lookup(r@, m) == (match last_given(all.take(i + 1), m) {
                Some(v) => Some(Value::String(v)),
                None => None::<Value>,
            }) by {
                if m != nm {
                    assert(var_lookup(r@, m) == var_lookup(before, m));
                }
            }
        }
        i += 1;
    }
    assert(all.take(n as int) =~= all);
    r
}

/// The value last given to a name.
pub open spec fn last_given(given: Seq<(String, String)>, m: Seq<char>) -> Option<String>
    decreases given.len(),
{
    if given.len() == 0 {
        None
    } else if given.last().0@ == m {
        Some(given.last().1)
    } else {
        last_given(given.drop_last(), m)
    }
}

/// Some error of the run was not raised by an assert.
pub open spec fn has_runner_error(h: HurlResult) -> bool {
    exists|k: int| 0 <= k < entries_errors(h.entries@).len() && !(#[trigger] entries_errors(h.entries@)[k]).assert
}

/// The exit code of runs: 3 when a run has an error not raised by an assert, else 4
/// when a run has an error, else 0.
pub open spec fn exit_code_of(hs: Seq<HurlResult>) -> int {
    if exists|i: int| 0 <= i < hs.len() && has_runner_error(#[trigger] hs[i]) {
        3
    } else if exists|i: int| 0 <= i < hs.len() && entries_errors((#[trigger] hs[i]).entries@).len() > 0 {
        4
    } else {
        0
    }
}

/// The exit code of runs.
pub fn exit_code(hurl_results: &Vec<HurlResult>) -> (c: i32)
    ensures
        c as int == exit_code_of(hurl_results@),
{
    let mut runner_errors: usize = 0;
    let mut assert_errors: usize = 0;
    let mut i: usize = 0;
    while i < hurl_results.len()
        invariant
            i <= hurl_results.len(),
            runner_errors <= i,
            assert_errors <= i,
            (runner_errors > 0) == exists|j: int| 0 <= j < i && has_runner_error(#[trigger] hurl_results@[j]),
            (runner_errors > 0 || assert_errors > 0) == exists|j: int| 0 <= j < i
                && entries_errors((#[trigger] hurl_results@[j]).entries@).len() > 0,
        decreases hurl_results.len() - i,
    {
        let errors: Vec<Error> = hurl_results[i].errors();
        let mut any_runner = false;
        let mut k: usize = 0;
        while k < errors.len()
            invariant
                k <= errors.len(),
                any_runner == exists|j: int| 0 <= j < k && !(#[trigger] errors@[j]).assert,
            decreases errors.len() - k,
        {
            if !errors[k].assert {
                any_runner = true;
            }
            k += 1;
        }
        proof {
            let es = entries_errors(hurl_results@[i as int].entries@);
            if any_runner {
                let j = choose|j: int| 0 <= j < errors@.len() && !(#[trigger] errors@[j]).assert;
                assert(!es[j].assert);
            }
            if has_runner_error(hurl_results@[i as int]) {
                let j = choose|j: int| 0 <= j < es.len() && !(#[trigger] es[j]).assert;
                assert(!errors@[j].assert);
            }
        }
        if errors.len() == 0 {
        } else if !any_runner {
            assert_errors += 1;
        } else {
            runner_errors += 1;
        }
        i += 1;
    }
    if runner_errors > 0 {
        3
    } else if assert_errors > 0 {
        4
    } else {
        0
    }
}

} // verus!
