use vstd::prelude::*;

use crate::common::Value;
use crate::runner::json_eval::var_lookup;
use crate::runner::results::CaptureResult;
use crate::text::str_eq;

verus! {

/// No two variables have the same name.
pub open spec fn unique_names(vs: Seq<(String, Value)>) -> bool {
    forall|i: int, j: int| 0 <= i < j < vs.len() ==> vs[i].0@ != vs[j].0@
}

/// A name no variable has is not found.
proof fn lemma_lookup_absent(vs: Seq<(String, Value)>, m: Seq<char>)
    requires
        forall|k: int| 0 <= k < vs.len() ==> vs[k].0@ != m,
    ensures
        var_lookup(vs, m) is None,
    decreases vs.len(),
{
    if vs.len() > 0 {
        assert(vs[0].0@ != m);
        assert forall|k: int| 0 <= k < vs.drop_first().len() implies vs.drop_first()[k].0@ != m by {
            assert(vs.drop_first()[k] == vs[k + 1]);
        }
        lemma_lookup_absent(vs.drop_first(), m);
    }
}

/// Replacing a variable whose name is not `m` by another not named `m` leaves what `m`
/// names unchanged.
proof fn lemma_lookup_update(vs: Seq<(String, Value)>, i: int, p: (String, Value), m: Seq<char>)
    requires
        0 <= i < vs.len(),
        vs[i].0@ != m,
        p.0@ != m,
    ensures
        var_lookup(vs.update(i, p), m) == var_lookup(vs, m),
    decreases vs.len(),
{
    let ws = vs.update(i, p);
    if i == 0 {
        assert(ws.drop_first() =~= vs.drop_first());
    } else {
        assert(ws[0] == vs[0]);
        if vs[0].0@ != m {
            assert(ws.drop_first() =~= vs.drop_first().update(i - 1, p));
            lemma_lookup_update(vs.drop_first(), i - 1, p, m);
        }
    }
}

/// A variable added at the end is found only where no earlier one has its name.
proof fn lemma_lookup_push(vs: Seq<(String, Value)>, p: (String, Value), m: Seq<char>)
    ensures
        var_lookup(vs.push(p), m) == (if var_lookup(vs, m) is Some {
            var_lookup(vs, m)
        } else if p.0@ == m {
            Some(p.1)
        } else {
            None
        }),
    decreases vs.len(),
{
    let ws = vs.push(p);
    if vs.len() == 0 {
        assert(ws[0] == p);
        assert(ws.drop_first() =~= Seq::<(String, Value)>::empty());
        assert(var_lookup(vs, m) is None);
    } else {
        assert(ws[0] == vs[0]);
        assert(ws.drop_first() =~= vs.drop_first().push(p));
        lemma_lookup_push(vs.drop_first(), p, m);
        if vs[0].0@ == m {
            assert(var_lookup(ws, m) == Some(vs[0].1));
            assert(var_lookup(vs, m) == Some(vs[0].1));
        } else {
            assert(var_lookup(ws, m) == var_lookup(ws.drop_first(), m));
            assert(var_lookup(vs, m) == var_lookup(vs.drop_first(), m));
        }
    }
}

/// Sets a variable: its value is replaced where one has its name, else it is added.
pub fn insert_variable(variables: &mut Vec<(String, Value)>, name: String, value: Value)
    ensures
        var_lookup(final(variables)@, name@) == Some(value),
        forall|m: Seq<char>| m != name@ ==> #[trigger] var_lookup(final(variables)@, m) == var_lookup(old(variables)@, m),
        unique_names(old(variables)@) ==> unique_names(final(variables)@),
{
    let ghost vs = variables@;
    let ghost n = name@;
    let ghost v = value;
    let mut i: usize = 0;
    while i < variables.len()
        invariant
            i <= variables.len(),
            variables@ == vs,
            vs == old(variables)@,
            n == name@,
            v == value,
            forall|k: int| 0 <= k < i ==> vs[k].0@ != n,
        decreases variables.len() - i,
    {
        if str_eq(variables[i].0.as_str(), name.as_str()) {
            let ghost p = (name, value);
            variables.set(i, (name, value));
            proof {
                assert(variables@ == vs.update(i as int, p));
                lemma_lookup_first(variables@, n, i as int);
                assert forall|m: Seq<char>| m != n implies #[trigger] var_lookup(variables@, m) == var_lookup(vs, m) by {
                    lemma_lookup_update(vs, i as int, p, m);
                }
                if unique_names(vs) {
                    assert forall|a: int, b: int| 0 <= a < b < variables@.len() implies variables@[a].0@ != variables@[b].0@ by {
                        assert(variables@[a].0@ == vs[a].0@);
                        assert(variables@[b].0@ == vs[b].0@);
                    }
                }
            }
            return;
        }
        i += 1;
    }
    let ghost p = (name, value);
    variables.push((name, value));
    proof {
        lemma_lookup_absent(vs, n);
        lemma_lookup_push(vs, p, n);
        assert forall|m: Seq<char>| m != n implies #[trigger] var_lookup(variables@, m) == var_lookup(vs, m) by {
            lemma_lookup_push(vs, p, m);
        }
        if unique_names(vs) {
            assert forall|a: int, b: int| 0 <= a < b < variables@.len() implies variables@[a].0@ != variables@[b].0@ by {
                if b == vs.len() {
                    assert(variables@[b].0@ == n);
                    assert(variables@[a] == vs[a]);
                } else {
                    assert(variables@[a] == vs[a]);
                    assert(variables@[b] == vs[b]);
                }
            }
        }
    }
}

/// The first variable of a name is the one found.
proof fn lemma_lookup_first(vs: Seq<(String, Value)>, m: Seq<char>, j: int)
    requires
        0 <= j < vs.len(),
        vs[j].0@ == m,
        forall|k: int| 0 <= k < j ==> vs[k].0@ != m,
    ensures
        var_lookup(vs, m) == Some(vs[j].1),
    decreases j,
{
    if j > 0 {
        assert(vs[0].0@ != m);
        assert forall|k: int| 0 <= k < j - 1 implies vs.drop_first()[k].0@ != m by {
            assert(vs.drop_first()[k] == vs[k + 1]);
        }
        lemma_lookup_first(vs.drop_first(), m, j - 1);
    }
}

/// The value of the last capture named `n`.
pub open spec fn last_capture(cs: Seq<CaptureResult>, n: Seq<char>) -> Option<Value>
    decreases cs.len(),
{
    if cs.len() == 0 {
        None
    } else if cs.last().name@ == n {
        Some(cs.last().value)
    } else {
        last_capture(cs.drop_last(), n)
    }
}

/// Sets a variable for each captured value, in order: a name captured twice keeps the
/// later value; the other variables are unchanged.
pub fn update_variables(variables: &mut Vec<(String, Value)>, captures: Vec<CaptureResult>)
    ensures
        forall|m: Seq<char>| #[trigger] var_lookup(final(variables)@, m) == (match last_capture(captures@, m) {
            Some(v) => Some(v),
            None => var_lookup(old(variables)@, m),
        }),
        unique_names(old(variables)@) ==> unique_names(final(variables)@),
{
    let ghost start = variables@;
    let ghost cs = captures@;
    let mut rest = captures;
    let n = rest.len();
    let mut i: usize = 0;
    while i < n
        invariant
            n == cs.len(),
            i <= n,
            rest@ == cs.skip(i as int),
            forall|m: Seq<char>| #[trigger] var_lookup(variables@, m) == (match last_capture(cs.take(i as int), m) {
                Some(v) => Some(v),
                None => var_lookup(start, m),
            }),
            unique_names(start) ==> unique_names(variables@),
        decreases n - i,
    {
        assert(cs.skip(i as int)[0] == cs[i as int]);
        let c = rest.remove(0);
        assert(cs.skip(i as int).remove(0) =~= cs.skip(i + 1));
        let ghost before = variables@;
        let ghost c0 = c;
        insert_variable(variables, c.name, c.value);
        proof {
            assert(cs.take(i + 1).drop_last() =~= cs.take(i as int));
            assert(cs.take(i + 1).last() == c0);
            assert forall|m: Seq<char>| #[trigger] var_lookup(variables@, m) == (match last_capture(cs.take(i + 1), m) {
                Some(v) => Some(v),
                None => var_lookup(start, m),
            }) by {
                if m != c0.name@ {
                    assert(var_lookup(variables@, m) == var_lookup(before, m));
                }
            }
        }
        i += 1;
    }
    assert(cs.take(n as int) =~= cs);
}


/// With names that are all different, the variables behave as a map: a name is found
/// with a value exactly when some variable has that name and value.
pub proof fn law_lookup_as_map(vs: Seq<(String, Value)>, name: Seq<char>, v: Value)
    requires
        unique_names(vs),
    ensures
        var_lookup(vs, name) == Some(v) <==> exists|i: int| 0 <= i < vs.len() && #[trigger] vs[i].0@ == name && vs[i].1 == v,
    decreases vs.len(),
{
    if vs.len() > 0 {
        let rest = vs.drop_first();
        assert(unique_names(rest)) by {
            assert forall|a: int, b: int| 0 <= a < b < rest.len() implies rest[a].0@ != rest[b].0@ by {
                assert(rest[a] == vs[a + 1]);
                assert(rest[b] == vs[b + 1]);
            }
        }
        law_lookup_as_map(rest, name, v);
        if vs[0].0@ == name {
            if var_lookup(vs, name) != Some(v) {
                assert forall|i: int| 0 <= i < vs.len() && #[trigger] vs[i].0@ == name implies vs[i].1 != v by {
                    if i > 0 {
                        assert(vs[0].0@ != vs[i].0@);
                    }
                }
            }
        } else {
            if exists|i: int| 0 <= i < vs.len() && #[trigger] vs[i].0@ == name && vs[i].1 == v {
                let i = choose|i: int| 0 <= i < vs.len() && #[trigger] vs[i].0@ == name && vs[i].1 == v;
                assert(rest[i - 1] == vs[i]);
            }
            if exists|j: int| 0 <= j < rest.len() && #[trigger] rest[j].0@ == name && rest[j].1 == v {
                let j = choose|j: int| 0 <= j < rest.len() && #[trigger] rest[j].0@ == name && rest[j].1 == v;
                assert(vs[j + 1] == rest[j]);
            }
        }
    }
}

} // verus!
