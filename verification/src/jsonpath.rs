use vstd::prelude::*;

use crate::reader::{in_class, lemma_run_end_bounds, run_end, CharClass};
use crate::json_doc::{
    copy_doc, doc_model, docs_model, get, lemma_docs_model, lemma_docs_model_concat, lemma_docs_model_push, lemma_lookup_model,
    lemma_members_model, members_model, model_lookup, DocModel, JsonDoc,
};
use crate::text::{chars_of, push_char, str_eq};

verus! {

// ----------------------------------------------------------------------------
// Decimal numbers, compared by their exact values.
// ----------------------------------------------------------------------------

/// The value of a run of decimal digits.
pub open spec fn digits_value(s: Seq<char>) -> nat
    decreases s.len(),
{
    if s.len() == 0 {
        0
    } else {
        digits_value(s.drop_last()) * 10 + ((s.last() as u32 - '0' as u32) as nat)
    }
}

/// A power of ten.
pub open spec fn pow10(n: nat) -> nat
    decreases n,
{
    if n == 0 { 1 } else { 10 * pow10((n - 1) as nat) }
}

/// A decimal number: its sign, its digits and where its point stands among them (the
/// number is `0.d1 d2 ... × 10^point`).
pub struct Decimal {
    pub negative: bool,
    pub digits: Seq<char>,
    pub point: int,
}

/// The index of the first digit from `i` that is not `0`.
pub open spec fn lead(d: Seq<char>, i: int) -> int
    decreases d.len() - i,
{
    if 0 <= i < d.len() && d[i] == '0' { lead(d, i + 1) } else { i }
}

/// The end of the digits from `lo` to `j` without their trailing `0`s.
pub open spec fn trail(d: Seq<char>, lo: int, j: int) -> int
    decreases j - lo,
{
    if lo < j && j <= d.len() && d[j - 1] == '0' { trail(d, lo, j - 1) } else { j }
}

/// The same number without leading or trailing zeros among its digits; zero has no digit.
pub open spec fn canonical(x: Decimal) -> Decimal {
    let z = lead(x.digits, 0);
    let e = trail(x.digits, z, x.digits.len() as int);
    Decimal { negative: x.negative, digits: x.digits.subrange(z, e), point: x.point - z }
}

/// The order of digit strings read as fractions `0.d1 d2 ...`: -1, 0 or 1.
pub open spec fn lex_order(a: Seq<char>, b: Seq<char>) -> int
    decreases a.len(),
{
    if a.len() == 0 {
        if b.len() == 0 { 0 } else { -1 }
    } else if b.len() == 0 {
        1
    } else if a[0] < b[0] {
        -1
    } else if a[0] > b[0] {
        1
    } else {
        lex_order(a.drop_first(), b.drop_first())
    }
}

/// The sign of a canonical decimal: 0 for zero.
pub open spec fn sign_of(c: Decimal) -> int {
    if c.digits.len() == 0 { 0 } else if c.negative { -1 } else { 1 }
}

/// The order of two decimals by value: -1, 0 or 1.
pub open spec fn decimal_order(x: Decimal, y: Decimal) -> int {
    let a = canonical(x);
    let b = canonical(y);
    if sign_of(a) != sign_of(b) {
        if sign_of(a) < sign_of(b) { -1 } else { 1 }
    } else if sign_of(a) == 0 {
        0
    } else {
        let m = if a.point != b.point {
            if a.point < b.point { -1int } else { 1int }
        } else {
            lex_order(a.digits, b.digits)
        };
        if sign_of(a) > 0 { m } else { -m }
    }
}

/// Where the digits of a JSON number start: after a minus sign, if any.
pub open spec fn sign_len(t: Seq<char>) -> int {
    if t.len() > 0 && t[0] == '-' { 1 } else { 0 }
}

/// Whether a point stands at `b`.
pub open spec fn has_point(t: Seq<char>, b: int) -> bool {
    0 <= b < t.len() && t[b] == '.'
}

/// The end of the decimal digits after the point at `b`, or `b` where there is none.
pub open spec fn frac_end(t: Seq<char>, b: int) -> int {
    if has_point(t, b) { run_end(t, b + 1, CharClass::Digit) } else { b }
}

/// The decimal digits after the point at `b`.
pub open spec fn frac_digits(t: Seq<char>, b: int) -> Seq<char> {
    if has_point(t, b) { t.subrange(b + 1, frac_end(t, b)) } else { Seq::empty() }
}

/// Where the digits of an exponent written at `c` start.
pub open spec fn exp_start(t: Seq<char>, c: int) -> int {
    if c + 1 < t.len() && (t[c + 1] == '-' || t[c + 1] == '+') { c + 2 } else { c + 1 }
}

/// The exponent written at `c` after `e` or `E`, or 0 where there is none.
pub open spec fn exponent(t: Seq<char>, c: int) -> int {
    if 0 <= c < t.len() && (t[c] == 'e' || t[c] == 'E') {
        let ds = exp_start(t, c);
        let v = digits_value(t.subrange(ds, run_end(t, ds, CharClass::Digit))) as int;
        if c + 1 < t.len() && t[c + 1] == '-' { -v } else { v }
    } else {
        0
    }
}

/// The decimal that a JSON number is written as: sign, integer digits, decimal digits
/// after a point, and an exponent after `e` or `E`.
pub open spec fn json_decimal(t: Seq<char>) -> Decimal {
    let a = sign_len(t);
    let b = run_end(t, a, CharClass::Digit);
    Decimal {
        negative: a == 1,
        digits: t.subrange(a, b) + frac_digits(t, b),
        point: (b - a) + exponent(t, frac_end(t, b)),
    }
}


/// The digits of a run are digits.
proof fn lemma_run_digits(t: Seq<char>, i: int)
    requires
        0 <= i <= t.len(),
    ensures
        i <= run_end(t, i, CharClass::Digit) <= t.len(),
        forall|k: int| i <= k < run_end(t, i, CharClass::Digit) ==> '0' <= #[trigger] t[k] && t[k] <= '9',
    decreases t.len() - i,
{
    if i < t.len() && in_class(CharClass::Digit, t[i]) {
        lemma_run_digits(t, i + 1);
    }
}

/// The value of digits written after others.
proof fn lemma_digits_concat(a: Seq<char>, b: Seq<char>)
    ensures
        digits_value(a + b) == digits_value(a) * pow10(b.len()) + digits_value(b),
    decreases b.len(),
{
    if b.len() == 0 {
        assert(a + b =~= a);
        assert(pow10(0) == 1);
        assert(digits_value(b) == 0);
        assert(digits_value(a) * 1 == digits_value(a));
    } else {
        assert((a + b).drop_last() =~= a + b.drop_last());
        assert((a + b).last() == b.last());
        lemma_digits_concat(a, b.drop_last());
        assert(pow10(b.len()) == 10 * pow10((b.len() - 1) as nat));
        assert(digits_value(a + b) == (digits_value(a) * pow10((b.len() - 1) as nat) + digits_value(b.drop_last())) * 10
            + ((b.last() as u32 - '0' as u32) as nat));
        let x = digits_value(a);
        let q = pow10((b.len() - 1) as nat);
        let y = digits_value(b.drop_last());
        assert((x * q + y) * 10 == x * (10 * q) + y * 10) by (nonlinear_arith);
        assert(digits_value(b) == y * 10 + ((b.last() as u32 - '0' as u32) as nat));
        assert(x * pow10(b.len()) == x * (10 * q));
    }
}

/// Zeros are worth nothing.
proof fn lemma_zeros_value(z: Seq<char>)
    requires
        forall|k: int| 0 <= k < z.len() ==> z[k] == '0',
    ensures
        digits_value(z) == 0,
    decreases z.len(),
{
    if z.len() > 0 {
        lemma_zeros_value(z.drop_last());
    }
}

/// Digits are worth less than the next power of ten.
proof fn lemma_digits_bound(s: Seq<char>)
    requires
        forall|k: int| 0 <= k < s.len() ==> '0' <= #[trigger] s[k] && s[k] <= '9',
    ensures
        digits_value(s) < pow10(s.len()),
    decreases s.len(),
{
    if s.len() > 0 {
        lemma_digits_bound(s.drop_last());
        assert(pow10(s.len()) == 10 * pow10((s.len() - 1) as nat));
        assert(s.last() == s[s.len() - 1]);
    }
}

/// Digits that begin with one that is not `0` are worth at least a power of ten.
proof fn lemma_digits_lower(s: Seq<char>)
    requires
        s.len() > 0,
        '1' <= s[0] && s[0] <= '9',
        forall|k: int| 0 <= k < s.len() ==> '0' <= #[trigger] s[k] && s[k] <= '9',
    ensures
        digits_value(s) >= pow10((s.len() - 1) as nat),
    decreases s.len(),
{
    if s.len() > 1 {
        assert(s.drop_last()[0] == s[0]);
        lemma_digits_lower(s.drop_last());
        assert(pow10((s.len() - 1) as nat) == 10 * pow10((s.len() - 2) as nat));
    }
}

proof fn lemma_pow10_mono(a: nat, b: nat)
    requires
        a <= b,
    ensures
        pow10(a) <= pow10(b),
    decreases b,
{
    if a < b {
        lemma_pow10_mono(a, (b - 1) as nat);
    }
}

proof fn lemma_pow10_20()
    ensures
        pow10(20) == 100000000000000000000,
{
    reveal_with_fuel(pow10, 21);
}

proof fn lemma_lead_bounds(d: Seq<char>, i: int)
    requires
        0 <= i <= d.len(),
    ensures
        i <= lead(d, i) <= d.len(),
        forall|k: int| i <= k < lead(d, i) ==> #[trigger] d[k] == '0',
        lead(d, i) < d.len() ==> d[lead(d, i)] != '0',
    decreases d.len() - i,
{
    if i < d.len() && d[i] == '0' {
        lemma_lead_bounds(d, i + 1);
    }
}

proof fn lemma_trail_bounds(d: Seq<char>, lo: int, j: int)
    requires
        0 <= lo <= j <= d.len(),
    ensures
        lo <= trail(d, lo, j) <= j,
    decreases j - lo,
{
    if lo < j && d[j - 1] == '0' {
        lemma_trail_bounds(d, lo, j - 1);
    }
}

/// The end of the run of digits from `i`.
fn digits_end(t: &Vec<char>, i: usize) -> (j: usize)
    requires
        i <= t.len(),
    ensures
        j as int == run_end(t@, i as int, CharClass::Digit),
{
    let mut j = i;
    while j < t.len() && '0' <= t[j] && t[j] <= '9'
        invariant
            i <= j <= t.len(),
            run_end(t@, i as int, CharClass::Digit) == run_end(t@, j as int, CharClass::Digit),
        decreases t.len() - j,
    {
        j += 1;
    }
    j
}

/// The index of the first digit from `i` that is not `0`.
fn lead_exec(d: &Vec<char>, i: usize) -> (j: usize)
    requires
        i <= d.len(),
    ensures
        j as int == lead(d@, i as int),
{
    let mut j = i;
    while j < d.len() && d[j] == '0'
        invariant
            i <= j <= d.len(),
            lead(d@, i as int) == lead(d@, j as int),
        decreases d.len() - j,
    {
        j += 1;
    }
    j
}

/// The end of the digits from `lo` to `j` without their trailing `0`s.
fn trail_exec(d: &Vec<char>, lo: usize, j: usize) -> (k: usize)
    requires
        lo <= j <= d.len(),
    ensures
        k as int == trail(d@, lo as int, j as int),
{
    let mut k = j;
    while lo < k && d[k - 1] == '0'
        invariant
            lo <= k <= j,
            j <= d.len(),
            trail(d@, lo as int, j as int) == trail(d@, lo as int, k as int),
        decreases k,
    {
        k -= 1;
    }
    k
}

/// The value of at most twenty digits.
fn digits_u128(d: &Vec<char>, lo: usize, hi: usize) -> (v: u128)
    requires
        lo <= hi <= d.len(),
        hi - lo <= 20,
        forall|k: int| lo <= k < hi ==> '0' <= #[trigger] d@[k] && d@[k] <= '9',
    ensures
        v as nat == digits_value(d@.subrange(lo as int, hi as int)),
{
    let mut v: u128 = 0;
    let mut k = lo;
    proof {
        lemma_pow10_20();
    }
    while k < hi
        invariant
            lo <= k <= hi,
            hi <= d.len(),
            hi - lo <= 20,
            forall|m: int| lo <= m < hi ==> '0' <= #[trigger] d@[m] && d@[m] <= '9',
            v as nat == digits_value(d@.subrange(lo as int, k as int)),
            pow10(20) == 100000000000000000000,
        decreases hi - k,
    {
        let ghost sub = d@.subrange(lo as int, k + 1);
        assert(sub.drop_last() =~= d@.subrange(lo as int, k as int));
        proof {
            lemma_digits_bound(sub);
            lemma_pow10_mono(sub.len(), 20);
        }
        let c = d[k];
        v = v * 10 + ((c as u32 - '0' as u32) as u128);
        k += 1;
    }
    v
}

/// The order of two digit strings read as fractions.
fn lex_exec(a: &Vec<char>, alo: usize, ahi: usize, b: &Vec<char>, blo: usize, bhi: usize) -> (r: i8)
    requires
        alo <= ahi <= a.len(),
        blo <= bhi <= b.len(),
    ensures
        r as int == lex_order(a@.subrange(alo as int, ahi as int), b@.subrange(blo as int, bhi as int)),
        -1 <= r <= 1,
{
    let mut i = alo;
    let mut j = blo;
    while i < ahi && j < bhi && a[i] == b[j]
        invariant
            alo <= i <= ahi,
            blo <= j <= bhi,
            ahi <= a.len(),
            bhi <= b.len(),
            i - alo == j - blo,
            lex_order(a@.subrange(alo as int, ahi as int), b@.subrange(blo as int, bhi as int))
                == lex_order(a@.subrange(i as int, ahi as int), b@.subrange(j as int, bhi as int)),
        decreases ahi - i,
    {
        assert(a@.subrange(i as int, ahi as int).drop_first() =~= a@.subrange(i + 1, ahi as int));
        assert(b@.subrange(j as int, bhi as int).drop_first() =~= b@.subrange(j + 1, bhi as int));
        i += 1;
        j += 1;
    }
    if i == ahi {
        if j == bhi { 0 } else { -1 }
    } else if j == bhi {
        1
    } else if a[i] < b[j] {
        -1
    } else {
        1
    }
}


/// A number written in a JSONPath filter: its sign, integer digits and decimal digits.
#[derive(Clone, Debug, PartialEq, Eq)]
pub struct Number {
    pub negative: bool,
    pub int: String,
    pub decimal: String,
}

/// The decimal a filter number is written as.
pub open spec fn number_decimal(n: Number) -> Decimal {
    Decimal { negative: n.negative, digits: n.int@ + n.decimal@, point: n.int@.len() as int }
}

/// The zeros that begin a run of digits are part of it.
proof fn lemma_lead_in_run(t: Seq<char>, i: int)
    requires
        0 <= i <= t.len(),
    ensures
        lead(t, i) <= run_end(t, i, CharClass::Digit),
    decreases t.len() - i,
{
    lemma_run_end_bounds(t, i, CharClass::Digit);
    if i < t.len() && t[i] == '0' {
        assert(in_class(CharClass::Digit, t[i]));
        lemma_lead_in_run(t, i + 1);
    }
}

/// The characters of `t` from `lo` to `hi` pushed onto `v`.
fn push_range(v: &mut Vec<char>, t: &Vec<char>, lo: usize, hi: usize)
    requires
        lo <= hi <= t.len(),
    ensures
        final(v)@ == old(v)@ + t@.subrange(lo as int, hi as int),
{
    let ghost start = v@;
    let mut k = lo;
    while k < hi
        invariant
            lo <= k <= hi,
            hi <= t.len(),
            v@ == start + t@.subrange(lo as int, k as int),
        decreases hi - k,
    {
        v.push(t[k]);
        k += 1;
        assert(v@ =~= start + t@.subrange(lo as int, k as int));
    }
}

/// The exponent written at `c`: exact when it has at most twenty significant digits,
/// else only its direction (`far`, with `negative`).
fn exponent_exec(tv: &Vec<char>, c: usize) -> (r: (bool, bool, i128))
    requires
        c <= tv.len(),
    ensures
        !r.0 ==> r.2 as int == exponent(tv@, c as int),
        !r.0 ==> -100000000000000000000int < r.2 < 100000000000000000000int,
        r.0 && r.1 ==> exponent(tv@, c as int) <= -100000000000000000000int,
        r.0 && !r.1 ==> exponent(tv@, c as int) >= 100000000000000000000int,
{
    let len = tv.len();
    proof {
        lemma_pow10_20();
    }
    if !(c < len && (tv[c] == 'e' || tv[c] == 'E')) {
        return (false, false, 0);
    }
    let negative = c + 1 < len && tv[c + 1] == '-';
    let ds: usize = if c + 1 < len && (tv[c + 1] == '-' || tv[c + 1] == '+') { c + 2 } else { c + 1 };
    let e_end = digits_end(&tv, ds);
    let ez = lead_exec(&tv, ds);
    proof {
        lemma_run_digits(tv@, ds as int);
        lemma_lead_in_run(tv@, ds as int);
        lemma_lead_bounds(tv@, ds as int);
        let zs = tv@.subrange(ds as int, ez as int);
        let rest = tv@.subrange(ez as int, e_end as int);
        assert(tv@.subrange(ds as int, e_end as int) =~= zs + rest);
        lemma_zeros_value(zs);
        lemma_digits_concat(zs, rest);
        assert(digits_value(zs) == 0);
        assert(digits_value(zs) * pow10(rest.len()) == 0) by (nonlinear_arith)
            requires digits_value(zs) == 0;
        assert(digits_value(tv@.subrange(ds as int, e_end as int)) == digits_value(rest));
    }
    if e_end - ez <= 20 {
        let ev = digits_u128(&tv, ez, e_end);
        proof {
            let rest = tv@.subrange(ez as int, e_end as int);
            lemma_digits_bound(rest);
            lemma_pow10_mono(rest.len(), 20);
            assert(ds as int == exp_start(tv@, c as int));
            let v = digits_value(tv@.subrange(ds as int, e_end as int)) as int;
            assert(v == ev as int);
            assert(exponent(tv@, c as int) == (if negative { -v } else { v }));
        }
        (false, negative, if negative { -(ev as i128) } else { ev as i128 })
    } else {
        proof {
            let rest = tv@.subrange(ez as int, e_end as int);
            lemma_digits_lower(rest);
            lemma_pow10_mono(20, (rest.len() - 1) as nat);
        }
        (true, negative, 0)
    }
}

/// The digits, sign and point of a JSON number; the point is exact unless the exponent
/// is too large to count, in which case only its direction is given (`far`, with
/// `toward_zero` when the exponent is negative).
fn json_parts(t: &str) -> (r: (Vec<char>, bool, bool, bool, i128))
    ensures
        r.0@ == json_decimal(t@).digits,
        r.1 == json_decimal(t@).negative,
        !r.2 ==> r.4 as int == json_decimal(t@).point,
        !r.2 ==> -200000000000000000000int < r.4 < 200000000000000000000int,
        r.2 && r.3 ==> json_decimal(t@).point <= usize::MAX - 100000000000000000000int,
        r.2 && !r.3 ==> json_decimal(t@).point >= 100000000000000000000int,
        r.0@.len() <= usize::MAX,
{
    let tv = chars_of(t);
    let len = tv.len();
    let a: usize = if len > 0 && tv[0] == '-' { 1 } else { 0 };
    let b = digits_end(&tv, a);
    proof {
        lemma_run_digits(tv@, a as int);
    }
    let point = b < len && tv[b] == '.';
    let c = if point { digits_end(&tv, b + 1) } else { b };
    proof {
        if point {
            lemma_run_digits(tv@, b + 1);
        }
    }
    let mut jd: Vec<char> = Vec::new();
    push_range(&mut jd, &tv, a, b);
    if point {
        push_range(&mut jd, &tv, b + 1, c);
    }
    assert(jd@ =~= json_decimal(t@).digits);
    let (far, toward_zero, ev) = exponent_exec(&tv, c);
    let point: i128 = if far { 0 } else { (b - a) as i128 + ev };
    (jd, a == 1, far, toward_zero, point)
}

/// The order, by exact value, of a JSON number and a filter number: -1, 0 or 1.
pub fn number_order(t: &str, n: &Number) -> (r: i8)
    ensures
        r as int == decimal_order(json_decimal(t@), number_decimal(*n)),
{
    let (jd, negative, far, toward_zero, point) = json_parts(t);
    let z = lead_exec(&jd, 0);
    proof {
        lemma_lead_bounds(jd@, 0);
    }
    let e = trail_exec(&jd, z, jd.len());
    proof {
        lemma_trail_bounds(jd@, z as int, jd@.len() as int);
    }
    let mut ld: Vec<char> = Vec::new();
    let iv = chars_of(n.int.as_str());
    let dv = chars_of(n.decimal.as_str());
    let ilen = iv.len();
    push_range(&mut ld, &iv, 0, ilen);
    push_range(&mut ld, &dv, 0, dv.len());
    assert(iv@.subrange(0, ilen as int) =~= n.int@);
    assert(dv@.subrange(0, dv@.len() as int) =~= n.decimal@);
    let zl = lead_exec(&ld, 0);
    proof {
        lemma_lead_bounds(ld@, 0);
    }
    let el = trail_exec(&ld, zl, ld.len());
    proof {
        lemma_trail_bounds(ld@, zl as int, ld@.len() as int);
    }
    let ghost ca = canonical(json_decimal(t@));
    let ghost cb = canonical(number_decimal(*n));
    assert(ca.digits =~= jd@.subrange(z as int, e as int));
    assert(cb.digits =~= ld@.subrange(zl as int, el as int));
    let sj: i8 = if z == e { 0 } else if negative { -1 } else { 1 };
    let sl: i8 = if zl == el { 0 } else if n.negative { -1 } else { 1 };
    assert(sj as int == sign_of(ca));
    assert(sl as int == sign_of(cb));
    if sj != sl {
        return if sj < sl { -1 } else { 1 };
    }
    if sj == 0 {
        return 0;
    }
    assert(cb.point == ilen as int - zl as int);
    let m: i8 = if far {
        if toward_zero { -1 } else { 1 }
    } else {
        let pj: i128 = point - z as i128;
        let pl: i128 = ilen as i128 - zl as i128;
        if pj != pl {
            if pj < pl { -1 } else { 1 }
        } else {
            lex_exec(&jd, z, e, &ld, zl, el)
        }
    };
    if sj > 0 { m } else { -m }
}


// ----------------------------------------------------------------------------
// JSONPath queries.
// ----------------------------------------------------------------------------

/// What a filter checks of the member it names.
#[derive(Clone, Debug, PartialEq, Eq)]
pub enum PredicateFunc {
    Equal(Number),
    GreaterThan(Number),
    GreaterThanOrEqual(Number),
    LessThan(Number),
    LessThanOrEqual(Number),
    EqualString(String),
}

/// A filter `?(@.key ...)`: the member it reads and what it checks of it.
#[derive(Clone, Debug, PartialEq, Eq)]
pub struct Predicate {
    pub key: String,
    pub func: PredicateFunc,
}

/// A step of a JSONPath query.
#[derive(Clone, Debug, PartialEq, Eq)]
pub enum Selector {
    NameChild(String),
    ArrayIndex(usize),
    Filter(Predicate),
    RecursiveKey(String),
}

/// A JSONPath query: its steps, from the root.
#[derive(Clone, Debug, PartialEq, Eq)]
pub struct Query {
    pub selectors: Vec<Selector>,
}

/// The value of an optional document, as a sequence of none or one.
pub open spec fn opt_docs(o: Option<DocModel>) -> Seq<DocModel> {
    match o {
        Some(d) => seq![d],
        None => Seq::empty(),
    }
}

/// The decimal of a filter number written as sign, integer and decimal digits.
pub open spec fn literal_decimal(negative: bool, whole: Seq<char>, dec: Seq<char>) -> Decimal {
    Decimal { negative, digits: whole + dec, point: whole.len() as int }
}

/// Whether an order (-1, 0 or 1) meets a comparison (0 for `==`, 1 for `>`, 2 for `>=`,
/// 3 for `<`, 4 for `<=`).
pub open spec fn order_meets(op: int, o: int) -> bool {
    if op == 0 { o == 0 } else if op == 1 { o > 0 } else if op == 2 { o >= 0 } else if op == 3 { o < 0 } else { o <= 0 }
}

/// Whether a document meets a filter on its member `key`: an object whose member of
/// that name is a number in the given order with the filter's number (by exact value),
/// or the string that the filter names.
pub open spec fn holds(key: Seq<char>, f: FuncModel, d: DocModel) -> bool {
    match d {
        DocModel::Object(ms) => match model_lookup(ms, key) {
            Some(DocModel::Number(t, _)) => match f {
                FuncModel::Num(op, neg, whole, dec) => order_meets(op, decimal_order(json_decimal(t), literal_decimal(neg, whole, dec))),
                FuncModel::Str(_) => false,
            },
            Some(DocModel::Str(v)) => f matches FuncModel::Str(x) && v == x,
            _ => false,
        },
        _ => false,
    }
}

/// The items that meet a filter, in order.
pub open spec fn filtered(a: Seq<DocModel>, key: Seq<char>, f: FuncModel) -> Seq<DocModel>
    decreases a.len(),
{
    if a.len() == 0 {
        Seq::empty()
    } else {
        let r = filtered(a.drop_last(), key, f);
        if holds(key, f, a.last()) { r.push(a.last()) } else { r }
    }
}

/// The values of the members named `k` anywhere in a document, the outer before the
/// inner, in document order.
pub open spec fn recursive(d: DocModel, k: Seq<char>) -> Seq<DocModel>
    decreases d,
{
    match d {
        DocModel::Object(ms) => opt_docs(model_lookup(ms, k)) + recursive_members(ms, k),
        DocModel::Array(a) => recursive_items(a, k),
        _ => Seq::empty(),
    }
}

/// The values of the members named `k` anywhere in the items.
pub open spec fn recursive_items(a: Seq<DocModel>, k: Seq<char>) -> Seq<DocModel>
    decreases a,
{
    if a.len() == 0 {
        Seq::empty()
    } else {
        recursive(a[0], k) + recursive_items(a.drop_first(), k)
    }
}

/// The values of the members named `k` anywhere in the members' values.
pub open spec fn recursive_members(ms: Seq<(Seq<char>, DocModel)>, k: Seq<char>) -> Seq<DocModel>
    decreases ms,
{
    if ms.len() == 0 {
        Seq::empty()
    } else {
        recursive(ms[0].1, k) + recursive_members(ms.drop_first(), k)
    }
}

/// What one step selects from one document.
pub open spec fn select(sel: SelectorModel, d: DocModel) -> Seq<DocModel> {
    match sel {
        SelectorModel::NameChild(f) => match d {
            DocModel::Object(ms) => opt_docs(model_lookup(ms, f)),
            _ => Seq::empty(),
        },
        SelectorModel::ArrayIndex(i) => match d {
            DocModel::Array(a) => if i < a.len() { seq![a[i as int]] } else { Seq::empty() },
            _ => Seq::empty(),
        },
        SelectorModel::Filter(key, f) => match d {
            DocModel::Array(a) => filtered(a, key, f),
            _ => Seq::empty(),
        },
        SelectorModel::RecursiveKey(k) => recursive(d, k),
    }
}

/// What one step selects from each document, in order.
pub open spec fn select_all(sel: SelectorModel, docs: Seq<DocModel>) -> Seq<DocModel>
    decreases docs.len(),
{
    if docs.len() == 0 {
        Seq::empty()
    } else {
        select_all(sel, docs.drop_last()) + select(sel, docs.last())
    }
}

/// What the first `n` steps select from the root.
pub open spec fn selected(sels: Seq<SelectorModel>, n: int, root: DocModel) -> Seq<DocModel>
    decreases n,
{
    if n <= 0 {
        seq![root]
    } else {
        select_all(sels[n - 1], selected(sels, n - 1, root))
    }
}

/// What the steps of a query select from a document.
pub open spec fn steps_result(sels: Seq<SelectorModel>, root: DocModel) -> Seq<DocModel> {
    selected(sels, sels.len() as int, root)
}

proof fn lemma_recursive_items_concat(a: Seq<DocModel>, b: Seq<DocModel>, k: Seq<char>)
    ensures
        recursive_items(a + b, k) == recursive_items(a, k) + recursive_items(b, k),
    decreases a.len(),
{
    if a.len() == 0 {
        assert(a + b =~= b);
    } else {
        assert((a + b).drop_first() =~= a.drop_first() + b);
        assert((a + b)[0] == a[0]);
        lemma_recursive_items_concat(a.drop_first(), b, k);
        assert(recursive(a[0], k) + (recursive_items(a.drop_first(), k) + recursive_items(b, k))
            =~= (recursive(a[0], k) + recursive_items(a.drop_first(), k)) + recursive_items(b, k));
    }
}

proof fn lemma_recursive_members_concat(a: Seq<(Seq<char>, DocModel)>, b: Seq<(Seq<char>, DocModel)>, k: Seq<char>)
    ensures
        recursive_members(a + b, k) == recursive_members(a, k) + recursive_members(b, k),
    decreases a.len(),
{
    if a.len() == 0 {
        assert(a + b =~= b);
    } else {
        assert((a + b).drop_first() =~= a.drop_first() + b);
        assert((a + b)[0] == a[0]);
        lemma_recursive_members_concat(a.drop_first(), b, k);
        assert(recursive(a[0].1, k) + (recursive_members(a.drop_first(), k) + recursive_members(b, k))
            =~= (recursive(a[0].1, k) + recursive_members(a.drop_first(), k)) + recursive_members(b, k));
    }
}

/// Whether a document meets a filter.
fn holds_exec(p: &Predicate, d: &JsonDoc) -> (b: bool)
    ensures
        b == holds(p.key@, func_model(p.func), doc_model(*d)),
{
    match d {
        JsonDoc::Object(m) => {
            proof {
                lemma_lookup_model(m@, p.key@);
            }
            match get(m, p.key.as_str()) {
                Some(JsonDoc::Number(t, _)) => {
                    match &p.func {
                        PredicateFunc::Equal(n) => number_order(t.as_str(), n) == 0,
                        PredicateFunc::GreaterThan(n) => number_order(t.as_str(), n) > 0,
                        PredicateFunc::GreaterThanOrEqual(n) => number_order(t.as_str(), n) >= 0,
                        PredicateFunc::LessThan(n) => number_order(t.as_str(), n) < 0,
                        PredicateFunc::LessThanOrEqual(n) => number_order(t.as_str(), n) <= 0,
                        PredicateFunc::EqualString(_) => false,
                    }
                },
                Some(JsonDoc::String(v)) => match &p.func {
                    PredicateFunc::EqualString(s) => str_eq(v.as_str(), s.as_str()),
                    _ => false,
                },
                _ => false,
            }
        },
        _ => false,
    }
}

/// Adds the values of the members named `k` anywhere in a document.
fn recursive_exec(d: &JsonDoc, k: &str, out: &mut Vec<JsonDoc>)
    ensures
        docs_model(final(out)@) == docs_model(old(out)@) + recursive(doc_model(*d), k@),
    decreases d,
{
    let ghost start = docs_model(out@);
    match d {
        JsonDoc::Object(m) => {
            let ghost ms = members_model(m@);
            proof {
                lemma_lookup_model(m@, k@);
                lemma_members_model(m@);
            }
            match get(m, k) {
                Some(v) => {
                    let c = copy_doc(v);
                    proof {
                        lemma_docs_model_push(out@, c);
                    }
                    out.push(c);
                },
                None => {},
            }
            assert(docs_model(out@) =~= start + opt_docs(model_lookup(ms, k@)));
            let mut i: usize = 0;
            assert(ms.take(0) =~= Seq::<(Seq<char>, DocModel)>::empty());
            while i < m.len()
                invariant
                    i <= m.len(),
                    *d == JsonDoc::Object(*m),
                    ms == members_model(m@),
                    ms.len() == m@.len(),
                    forall|j: int| 0 <= j < m@.len() ==> #[trigger] ms[j] == (m@[j].0@, doc_model(m@[j].1)),
                    docs_model(out@) == start + opt_docs(model_lookup(ms, k@)) + recursive_members(ms.take(i as int), k@),
                decreases m.len() - i,
            {
                proof {
                    assert(decreases_to!(*d => (*d)->Object_0));
                    assert(decreases_to!(*m => m@));
                    assert(decreases_to!(m@ => m@[i as int]));
                    assert(decreases_to!(m@[i as int] => m@[i as int].1));
                }
                let ghost before = docs_model(out@);
                recursive_exec(&m[i].1, k, out);
                proof {
                    assert(ms.take(i + 1) =~= ms.take(i as int) + seq![ms[i as int]]);
                    lemma_recursive_members_concat(ms.take(i as int), seq![ms[i as int]], k@);
                    let one = seq![ms[i as int]];
                    assert(one.drop_first() =~= Seq::<(Seq<char>, DocModel)>::empty());
                    assert(recursive_members(one.drop_first(), k@) == Seq::<DocModel>::empty());
                    assert(one[0] == ms[i as int]);
                    assert(recursive_members(one, k@) == recursive(one[0].1, k@) + recursive_members(one.drop_first(), k@));
                    assert(recursive_members(one, k@) =~= recursive(doc_model(m@[i as int].1), k@));
                }
                i += 1;
                assert(docs_model(out@) =~= start + opt_docs(model_lookup(ms, k@)) + recursive_members(ms.take(i as int), k@));
            }
            assert(ms.take(m.len() as int) =~= ms);
        },
        JsonDoc::Array(a) => {
            let ghost xs = docs_model(a@);
            proof {
                lemma_docs_model(a@);
            }
            let mut i: usize = 0;
            assert(xs.take(0) =~= Seq::<DocModel>::empty());
            assert(docs_model(out@) =~= start + recursive_items(xs.take(0), k@));
            while i < a.len()
                invariant
                    i <= a.len(),
                    *d == JsonDoc::Array(*a),
                    xs == docs_model(a@),
                    xs.len() == a@.len(),
                    forall|j: int| 0 <= j < a@.len() ==> #[trigger] xs[j] == doc_model(a@[j]),
                    docs_model(out@) == start + recursive_items(xs.take(i as int), k@),
                decreases a.len() - i,
            {
                proof {
                    assert(decreases_to!(*d => (*d)->Array_0));
                    assert(decreases_to!(*a => a@));
                    assert(decreases_to!(a@ => a@[i as int]));
                }
                recursive_exec(&a[i], k, out);
                proof {
                    assert(xs.take(i + 1) =~= xs.take(i as int) + seq![xs[i as int]]);
                    lemma_recursive_items_concat(xs.take(i as int), seq![xs[i as int]], k@);
                    let one = seq![xs[i as int]];
                    assert(one.drop_first() =~= Seq::<DocModel>::empty());
                    assert(recursive_items(one.drop_first(), k@) == Seq::<DocModel>::empty());
                    assert(one[0] == xs[i as int]);
                    assert(recursive_items(one, k@) == recursive(one[0], k@) + recursive_items(one.drop_first(), k@));
                    assert(recursive_items(one, k@) =~= recursive(doc_model(a@[i as int]), k@));
                }
                i += 1;
                assert(docs_model(out@) =~= start + recursive_items(xs.take(i as int), k@));
            }
            assert(xs.take(a.len() as int) =~= xs);
        },
        _ => {
            assert(docs_model(out@) =~= start + recursive(doc_model(*d), k@));
        },
    }
}


/// Adds what one step selects from one document.
fn select_exec(sel: &Selector, d: &JsonDoc, out: &mut Vec<JsonDoc>)
    ensures
        docs_model(final(out)@) == docs_model(old(out)@) + select(selector_model(*sel), doc_model(*d)),
{
    let ghost start = docs_model(out@);
    match sel {
        Selector::NameChild(f) => {
            match d {
                JsonDoc::Object(m) => {
                    proof {
                        lemma_lookup_model(m@, f@);
                    }
                    match get(m, f.as_str()) {
                        Some(v) => {
                            let c = copy_doc(v);
                            proof {
                                lemma_docs_model_push(out@, c);
                            }
                            out.push(c);
                        },
                        None => {},
                    }
                },
                _ => {},
            }
            assert(docs_model(out@) =~= start + select(selector_model(*sel), doc_model(*d)));
        },
        Selector::ArrayIndex(i) => {
            match d {
                JsonDoc::Array(a) => {
                    proof {
                        lemma_docs_model(a@);
                    }
                    if *i < a.len() {
                        let c = copy_doc(&a[*i]);
                        proof {
                            lemma_docs_model_push(out@, c);
                        }
                        out.push(c);
                    }
                },
                _ => {},
            }
            assert(docs_model(out@) =~= start + select(selector_model(*sel), doc_model(*d)));
        },
        Selector::Filter(p) => {
            match d {
                JsonDoc::Array(a) => {
                    let ghost xs = docs_model(a@);
                    proof {
                        lemma_docs_model(a@);
                    }
                    let mut i: usize = 0;
                    assert(xs.take(0) =~= Seq::<DocModel>::empty());
                    assert(docs_model(out@) =~= start + filtered(xs.take(0), p.key@, func_model(p.func)));
                    while i < a.len()
                        invariant
                            i <= a.len(),
                            xs == docs_model(a@),
                            xs.len() == a@.len(),
                            forall|j: int| 0 <= j < a@.len() ==> #[trigger] xs[j] == doc_model(a@[j]),
                            docs_model(out@) == start + filtered(xs.take(i as int), p.key@, func_model(p.func)),
                        decreases a.len() - i,
                    {
                        assert(xs.take(i + 1).drop_last() =~= xs.take(i as int));
                        assert(xs.take(i + 1).last() == xs[i as int]);
                        if holds_exec(p, &a[i]) {
                            let c = copy_doc(&a[i]);
                            proof {
                                lemma_docs_model_push(out@, c);
                            }
                            out.push(c);
                        }
                        i += 1;
                        assert(docs_model(out@) =~= start + filtered(xs.take(i as int), p.key@, func_model(p.func)));
                    }
                    assert(xs.take(a.len() as int) =~= xs);
                },
                _ => {
                    assert(docs_model(out@) =~= start + select(selector_model(*sel), doc_model(*d)));
                },
            }
        },
        Selector::RecursiveKey(k) => {
            recursive_exec(d, k.as_str(), out);
        },
    }
}

impl Query {
    /// The documents that the query selects from a document, in order.
    pub fn eval(&self, value: &JsonDoc) -> (r: Vec<JsonDoc>)
        ensures
            docs_model(r@) == steps_result(selector_models(self.selectors@), doc_model(*value)),
    {
        let mut results: Vec<JsonDoc> = Vec::new();
        let root = copy_doc(value);
        proof {
            lemma_docs_model_push(results@, root);
        }
        results.push(root);
        assert(Seq::<DocModel>::empty().push(doc_model(*value)) =~= seq![doc_model(*value)]);
        let mut n: usize = 0;
        while n < self.selectors.len()
            invariant
                n <= self.selectors.len(),
                docs_model(results@) == selected(selector_models(self.selectors@), n as int, doc_model(*value)),
            decreases self.selectors.len() - n,
        {
            let sel = &self.selectors[n];
            let mut next: Vec<JsonDoc> = Vec::new();
            let ghost docs = docs_model(results@);
            proof {
                lemma_docs_model(results@);
            }
            let mut i: usize = 0;
            assert(docs.take(0) =~= Seq::<DocModel>::empty());
            while i < results.len()
                invariant
                    i <= results.len(),
                    docs == docs_model(results@),
                    docs.len() == results@.len(),
                    forall|j: int| 0 <= j < results@.len() ==> #[trigger] docs[j] == doc_model(results@[j]),
                    docs_model(next@) == select_all(selector_model(*sel), docs.take(i as int)),
                decreases results.len() - i,
            {
                assert(docs.take(i + 1).drop_last() =~= docs.take(i as int));
                assert(docs.take(i + 1).last() == docs[i as int]);
                select_exec(sel, &results[i], &mut next);
                i += 1;
            }
            assert(docs.take(results.len() as int) =~= docs);
            results = next;
            n += 1;
        }
        results
    }
}


// ----------------------------------------------------------------------------
// The text of a JSONPath query.
//
//   query     ::= '$' selector*
//   selector  ::= '..' name | '.' name | '[' index ']' | "['" text "']"
//               | '[?(@.' name op literal ')]'
//   name      ::= one or more of letters, digits, '_' and '-'
//   index     ::= one to nine digits
//   op        ::= '==' | '>=' | '>' | '<=' | '<'
//   literal   ::= '-'? digits ('.' digits)?  |  "'" text "'" (after '==' only)
//   text      ::= characters other than "'"
// ----------------------------------------------------------------------------

/// What a filter checks, as plain values: an order (0 for `==`, 1 for `>`, 2 for `>=`,
/// 3 for `<`, 4 for `<=`) with a number, or equality with a string.
pub enum FuncModel {
    Num(int, bool, Seq<char>, Seq<char>),
    Str(Seq<char>),
}

/// A step of a query, as plain values.
pub enum SelectorModel {
    NameChild(Seq<char>),
    ArrayIndex(nat),
    Filter(Seq<char>, FuncModel),
    RecursiveKey(Seq<char>),
}

/// The plain values of a filter's check.
pub open spec fn func_model(f: PredicateFunc) -> FuncModel {
    match f {
        PredicateFunc::Equal(n) => FuncModel::Num(0, n.negative, n.int@, n.decimal@),
        PredicateFunc::GreaterThan(n) => FuncModel::Num(1, n.negative, n.int@, n.decimal@),
        PredicateFunc::GreaterThanOrEqual(n) => FuncModel::Num(2, n.negative, n.int@, n.decimal@),
        PredicateFunc::LessThan(n) => FuncModel::Num(3, n.negative, n.int@, n.decimal@),
        PredicateFunc::LessThanOrEqual(n) => FuncModel::Num(4, n.negative, n.int@, n.decimal@),
        PredicateFunc::EqualString(s) => FuncModel::Str(s@),
    }
}

/// The plain values of a step.
pub open spec fn selector_model(sel: Selector) -> SelectorModel {
    match sel {
        Selector::NameChild(f) => SelectorModel::NameChild(f@),
        Selector::ArrayIndex(i) => SelectorModel::ArrayIndex(i as nat),
        Selector::Filter(p) => SelectorModel::Filter(p.key@, func_model(p.func)),
        Selector::RecursiveKey(k) => SelectorModel::RecursiveKey(k@),
    }
}

/// The plain values of steps.
pub open spec fn selector_models(sels: Seq<Selector>) -> Seq<SelectorModel> {
    sels.map_values(|sel: Selector| selector_model(sel))
}

/// The character `c` stands at `i`.
pub open spec fn at(s: Seq<char>, i: int, c: char) -> bool {
    0 <= i < s.len() && s[i] == c
}

/// A character of a name.
pub open spec fn name_char(c: char) -> bool {
    ('a' <= c && c <= 'z') || ('A' <= c && c <= 'Z') || ('0' <= c && c <= '9') || c == '_' || c == '-'
}

/// The end of the name from `i`.
pub open spec fn name_end(s: Seq<char>, i: int) -> int
    decreases s.len() - i,
{
    if 0 <= i < s.len() && name_char(s[i]) { name_end(s, i + 1) } else { i }
}

/// The index of the first quote `'` from `i`, or the end.
pub open spec fn quote_end(s: Seq<char>, i: int) -> int
    decreases s.len() - i,
{
    if 0 <= i < s.len() && s[i] != '\'' { quote_end(s, i + 1) } else { i }
}

/// The comparison written at `i` and the index after it.
pub open spec fn op_at(s: Seq<char>, i: int) -> Option<(int, int)> {
    if at(s, i, '=') && at(s, i + 1, '=') {
        Some((0, i + 2))
    } else if at(s, i, '>') {
        if at(s, i + 1, '=') { Some((2, i + 2)) } else { Some((1, i + 1)) }
    } else if at(s, i, '<') {
        if at(s, i + 1, '=') { Some((4, i + 2)) } else { Some((3, i + 1)) }
    } else {
        None
    }
}

/// The number written at `i`: sign, integer digits, decimal digits, and the index
/// after it.
pub open spec fn number_at(s: Seq<char>, i: int) -> Option<(bool, Seq<char>, Seq<char>, int)> {
    let neg = at(s, i, '-');
    let j = if neg { i + 1 } else { i };
    let d = run_end(s, j, CharClass::Digit);
    if !(0 <= j && d > j) {
        None
    } else if at(s, d, '.') {
        let f = run_end(s, d + 1, CharClass::Digit);
        if f > d + 1 { Some((neg, s.subrange(j, d), s.subrange(d + 1, f), f)) } else { None }
    } else {
        Some((neg, s.subrange(j, d), Seq::empty(), d))
    }
}

/// The check of a filter written at `i` after its comparison `op`, and the index after it.
pub open spec fn func_at(s: Seq<char>, i: int, op: int) -> Option<(FuncModel, int)> {
    if op == 0 && at(s, i, '\'') {
        let q = quote_end(s, i + 1);
        if at(s, q, '\'') { Some((FuncModel::Str(s.subrange(i + 1, q)), q + 1)) } else { None }
    } else {
        match number_at(s, i) {
            Some((neg, whole, dec, e)) => Some((FuncModel::Num(op, neg, whole, dec), e)),
            None => None,
        }
    }
}

/// The filter step written at `i` (which begins `[?(@.`), and the index after it.
pub open spec fn filter_at(s: Seq<char>, i: int) -> Option<(SelectorModel, int)> {
    let k = name_end(s, i + 5);
    if !(k > i + 5) {
        None
    } else {
        match op_at(s, k) {
            None => None,
            Some((op, j)) => match func_at(s, j, op) {
                None => None,
                Some((f, e)) => if at(s, e, ')') && at(s, e + 1, ']') {
                    Some((SelectorModel::Filter(s.subrange(i + 5, k), f), e + 2))
                } else {
                    None
                },
            },
        }
    }
}

/// The step written at `i`, and the index after it.
pub open spec fn step_at(s: Seq<char>, i: int) -> Option<(SelectorModel, int)> {
    if at(s, i, '.') && at(s, i + 1, '.') {
        let n = name_end(s, i + 2);
        if n > i + 2 { Some((SelectorModel::RecursiveKey(s.subrange(i + 2, n)), n)) } else { None }
    } else if at(s, i, '.') {
        let n = name_end(s, i + 1);
        if n > i + 1 { Some((SelectorModel::NameChild(s.subrange(i + 1, n)), n)) } else { None }
    } else if at(s, i, '[') && at(s, i + 1, '\'') {
        let q = quote_end(s, i + 2);
        if at(s, q, '\'') && at(s, q + 1, ']') { Some((SelectorModel::NameChild(s.subrange(i + 2, q)), q + 2)) } else { None }
    } else if at(s, i, '[') && at(s, i + 1, '?') && at(s, i + 2, '(') && at(s, i + 3, '@') && at(s, i + 4, '.') {
        filter_at(s, i)
    } else if at(s, i, '[') {
        let d = run_end(s, i + 1, CharClass::Digit);
        if d > i + 1 && d - (i + 1) <= 9 && at(s, d, ']') {
            Some((SelectorModel::ArrayIndex(digits_value(s.subrange(i + 1, d))), d + 1))
        } else {
            None
        }
    } else {
        None
    }
}

/// The steps written from `i` to the end.
pub open spec fn steps_from(s: Seq<char>, i: int) -> Option<Seq<SelectorModel>>
    decreases s.len() - i,
{
    if !(0 <= i < s.len()) {
        Some(Seq::empty())
    } else {
        match step_at(s, i) {
            Some((sel, j)) => if i < j <= s.len() {
                match steps_from(s, j) {
                    Some(rest) => Some(seq![sel] + rest),
                    None => None,
                }
            } else {
                None
            },
            None => None,
        }
    }
}

/// The steps of a query written as `s`, or nothing where it is no query.
pub open spec fn query_steps(s: Seq<char>) -> Option<Seq<SelectorModel>> {
    if at(s, 0, '$') { steps_from(s, 1) } else { None }
}


fn at_exec(tv: &Vec<char>, i: usize, c: char) -> (b: bool)
    ensures
        b == at(tv@, i as int, c),
{
    i < tv.len() && tv[i] == c
}

fn name_end_exec(tv: &Vec<char>, i: usize) -> (j: usize)
    requires
        i <= tv.len(),
    ensures
        j as int == name_end(tv@, i as int),
        i <= j <= tv.len(),
{
    let mut j = i;
    while j < tv.len() && (('a' <= tv[j] && tv[j] <= 'z') || ('A' <= tv[j] && tv[j] <= 'Z') || ('0' <= tv[j] && tv[j] <= '9')
        || tv[j] == '_' || tv[j] == '-')
        invariant
            i <= j <= tv.len(),
            name_end(tv@, i as int) == name_end(tv@, j as int),
        decreases tv.len() - j,
    {
        j += 1;
    }
    j
}

fn quote_end_exec(tv: &Vec<char>, i: usize) -> (j: usize)
    requires
        i <= tv.len(),
    ensures
        j as int == quote_end(tv@, i as int),
        i <= j <= tv.len(),
{
    let mut j = i;
    while j < tv.len() && tv[j] != '\''
        invariant
            i <= j <= tv.len(),
            quote_end(tv@, i as int) == quote_end(tv@, j as int),
        decreases tv.len() - j,
    {
        j += 1;
    }
    j
}

/// The characters from `a` to `b` as a string.
fn string_range(tv: &Vec<char>, a: usize, b: usize) -> (s: String)
    requires
        a <= b <= tv.len(),
    ensures
        s@ == tv@.subrange(a as int, b as int),
{
    let mut s = String::new();
    let mut k = a;
    while k < b
        invariant
            a <= k <= b,
            b <= tv.len(),
            s@ == tv@.subrange(a as int, k as int),
        decreases b - k,
    {
        push_char(&mut s, tv[k]);
        k += 1;
        assert(s@ =~= tv@.subrange(a as int, k as int));
    }
    s
}

fn op_exec(tv: &Vec<char>, i: usize) -> (r: Option<(u8, usize)>)
    requires
        i <= tv.len(),
    ensures
        match op_at(tv@, i as int) {
            Some((op, j)) => r matches Some((o, k)) && o as int == op && k as int == j,
            None => r is None,
        },
{
    if at_exec(tv, i, '=') && at_exec(tv, i + 1, '=') {
        Some((0, i + 2))
    } else if at_exec(tv, i, '>') {
        if at_exec(tv, i + 1, '=') { Some((2, i + 2)) } else { Some((1, i + 1)) }
    } else if at_exec(tv, i, '<') {
        if at_exec(tv, i + 1, '=') { Some((4, i + 2)) } else { Some((3, i + 1)) }
    } else {
        None
    }
}

fn number_exec(tv: &Vec<char>, i: usize) -> (r: Option<(bool, String, String, usize)>)
    requires
        i <= tv.len(),
    ensures
        match number_at(tv@, i as int) {
            Some((neg, whole, dec, e)) => r matches Some((n2, w2, d2, e2)) && n2 == neg && w2@ == whole && d2@ == dec && e2 as int == e,
            None => r is None,
        },
        r matches Some((_, _, _, e2)) ==> e2 <= tv.len(),
{
    let neg = at_exec(tv, i, '-');
    let j = if neg { i + 1 } else { i };
    let d = digits_end(tv, j);
    proof {
        lemma_run_digits(tv@, j as int);
    }
    if !(d > j) {
        return None;
    }
    if at_exec(tv, d, '.') {
        let f = digits_end(tv, d + 1);
        proof {
            lemma_run_digits(tv@, d + 1);
        }
        if f > d + 1 {
            Some((neg, string_range(tv, j, d), string_range(tv, d + 1, f), f))
        } else {
            None
        }
    } else {
        Some((neg, string_range(tv, j, d), String::new(), d))
    }
}

fn func_exec(tv: &Vec<char>, i: usize, op: u8) -> (r: Option<(PredicateFunc, usize)>)
    requires
        i <= tv.len(),
        op <= 4,
    ensures
        match func_at(tv@, i as int, op as int) {
            Some((f, e)) => r matches Some((pf, e2)) && func_model(pf) == f && e2 as int == e,
            None => r is None,
        },
        r matches Some((_, e2)) ==> e2 <= tv.len(),
{
    if op == 0 && at_exec(tv, i, '\'') {
        let q = quote_end_exec(tv, i + 1);
        if at_exec(tv, q, '\'') {
            Some((PredicateFunc::EqualString(string_range(tv, i + 1, q)), q + 1))
        } else {
            None
        }
    } else {
        match number_exec(tv, i) {
            Some((negative, whole, decimal, e)) => {
                let n = Number { negative, int: whole, decimal };
                let f = if op == 0 {
                    PredicateFunc::Equal(n)
                } else if op == 1 {
                    PredicateFunc::GreaterThan(n)
                } else if op == 2 {
                    PredicateFunc::GreaterThanOrEqual(n)
                } else if op == 3 {
                    PredicateFunc::LessThan(n)
                } else {
                    PredicateFunc::LessThanOrEqual(n)
                };
                Some((f, e))
            },
            None => None,
        }
    }
}

fn filter_exec(tv: &Vec<char>, i: usize) -> (r: Option<(Selector, usize)>)
    requires
        i + 5 <= tv.len(),
    ensures
        match filter_at(tv@, i as int) {
            Some((m, e)) => r matches Some((sel, e2)) && selector_model(sel) == m && e2 as int == e,
            None => r is None,
        },
        r matches Some((_, e2)) ==> e2 <= tv.len(),
{
    let k = name_end_exec(tv, i + 5);
    if !(k > i + 5) {
        return None;
    }
    match op_exec(tv, k) {
        None => None,
        Some((op, j)) => match func_exec(tv, j, op) {
            None => None,
            Some((func, e)) => {
                if at_exec(tv, e, ')') && at_exec(tv, e + 1, ']') {
                    let key = string_range(tv, i + 5, k);
                    Some((Selector::Filter(Predicate { key, func }), e + 2))
                } else {
                    None
                }
            },
        },
    }
}

fn step_exec(tv: &Vec<char>, i: usize) -> (r: Option<(Selector, usize)>)
    requires
        i < tv.len(),
    ensures
        match step_at(tv@, i as int) {
            Some((m, e)) => r matches Some((sel, e2)) && selector_model(sel) == m && e2 as int == e,
            None => r is None,
        },
        r matches Some((_, e2)) ==> e2 <= tv.len(),
{
    if at_exec(tv, i, '.') && at_exec(tv, i + 1, '.') {
        let n = name_end_exec(tv, i + 2);
        if n > i + 2 { Some((Selector::RecursiveKey(string_range(tv, i + 2, n)), n)) } else { None }
    } else if at_exec(tv, i, '.') {
        let n = name_end_exec(tv, i + 1);
        if n > i + 1 { Some((Selector::NameChild(string_range(tv, i + 1, n)), n)) } else { None }
    } else if at_exec(tv, i, '[') && at_exec(tv, i + 1, '\'') {
        let q = quote_end_exec(tv, i + 2);
        if at_exec(tv, q, '\'') && at_exec(tv, q + 1, ']') {
            Some((Selector::NameChild(string_range(tv, i + 2, q)), q + 2))
        } else {
            None
        }
    } else if at_exec(tv, i, '[') && at_exec(tv, i + 1, '?') && at_exec(tv, i + 2, '(') && at_exec(tv, i + 3, '@')
        && at_exec(tv, i + 4, '.') {
        filter_exec(tv, i)
    } else if at_exec(tv, i, '[') {
        let d = digits_end(tv, i + 1);
        proof {
            lemma_run_digits(tv@, i + 1);
        }
        if d > i + 1 && d - (i + 1) <= 9 && at_exec(tv, d, ']') {
            let v = digits_u128(tv, i + 1, d);
            proof {
                let ds = tv@.subrange(i + 1, d as int);
                lemma_digits_bound(ds);
                lemma_pow10_mono(ds.len(), 9);
                reveal_with_fuel(pow10, 10);
            }
            Some((Selector::ArrayIndex(v as usize), d + 1))
        } else {
            None
        }
    } else {
        None
    }
}

impl Query {
    /// Reads a JSONPath query; nothing where the text is no query.
    pub fn parse(s: &str) -> (r: Option<Query>)
        ensures
            match query_steps(s@) {
                Some(v) => r matches Some(q) && selector_models(q.selectors@) == v,
                None => r is None,
            },
    {
        let tv = chars_of(s);
        if !at_exec(&tv, 0, '$') {
            return None;
        }
        let mut selectors: Vec<Selector> = Vec::new();
        let mut i: usize = 1;
        while i < tv.len()
            invariant
                1 <= i <= tv.len(),
                tv@ == s@,
                at(s@, 0, '$'),
                query_steps(s@) == (match steps_from(s@, i as int) {
                    Some(rest) => Some(selector_models(selectors@) + rest),
                    None => None::<Seq<SelectorModel>>,
                }),
            decreases tv.len() - i,
        {
            match step_exec(&tv, i) {
                Some((sel, j)) => {
                    if j <= i {
                        return None;
                    }
                    let ghost before = selector_models(selectors@);
                    selectors.push(sel);
                    proof {
                        assert(selector_models(selectors@) =~= before.push(selector_model(sel)));
                        match steps_from(s@, j as int) {
                            Some(rest) => {
                                assert(before + (seq![selector_model(sel)] + rest) =~= before.push(selector_model(sel)) + rest);
                            },
                            None => {},
                        }
                    }
                    i = j;
                },
                None => {
                    return None;
                },
            }
        }
        proof {
            assert(selector_models(selectors@) + Seq::<SelectorModel>::empty() =~= selector_models(selectors@));
        }
        Some(Query { selectors })
    }
}


impl Selector {
    /// The documents that the step selects from a document, in order.
    pub fn eval(&self, root: &JsonDoc) -> (r: Vec<JsonDoc>)
        ensures
            docs_model(r@) == select(selector_model(*self), doc_model(*root)),
    {
        let mut out: Vec<JsonDoc> = Vec::new();
        select_exec(self, root, &mut out);
        assert(Seq::<DocModel>::empty() + select(selector_model(*self), doc_model(*root)) =~= select(selector_model(*self), doc_model(*root)));
        out
    }
}

impl Predicate {
    /// Whether a document meets the filter.
    pub fn eval(&self, elem: &JsonDoc) -> (b: bool)
        ensures
            b == holds(self.key@, func_model(self.func), doc_model(*elem)),
    {
        holds_exec(self, elem)
    }
}


/// A filter on a number keeps an object exactly when the object's member of that name is
/// a number that stands in the filter's relation to the filter's number, compared by
/// value: `==` equal, `>` greater, `>=` greater or equal, `<` less, `<=` less or equal;
/// a filter on a string never keeps a number.
pub proof fn law_filter_on_number(p: Predicate, ms: Seq<(Seq<char>, DocModel)>, t: Seq<char>, x: Option<u64>)
    requires
        model_lookup(ms, p.key@) == Some(DocModel::Number(t, x)),
    ensures
        holds(p.key@, func_model(p.func), DocModel::Object(ms)) <==> match p.func {
            PredicateFunc::Equal(n) => decimal_order(json_decimal(t), number_decimal(n)) == 0,
            PredicateFunc::GreaterThan(n) => decimal_order(json_decimal(t), number_decimal(n)) > 0,
            PredicateFunc::GreaterThanOrEqual(n) => decimal_order(json_decimal(t), number_decimal(n)) >= 0,
            PredicateFunc::LessThan(n) => decimal_order(json_decimal(t), number_decimal(n)) < 0,
            PredicateFunc::LessThanOrEqual(n) => decimal_order(json_decimal(t), number_decimal(n)) <= 0,
            PredicateFunc::EqualString(_) => false,
        },
{
}

/// A filter on a string keeps an object exactly when the object's member of that name is
/// that string.
pub proof fn law_filter_on_string(key: String, v: String, d: DocModel)
    ensures
        holds(key@, func_model(PredicateFunc::EqualString(v)), d) <==> (d matches DocModel::Object(ms)
            && model_lookup(ms, key@) == Some(DocModel::Str(v@))),
{
}

/// A filter keeps nothing but objects that have a member of its name.
pub proof fn law_filter_needs_member(p: Predicate, d: DocModel)
    requires
        holds(p.key@, func_model(p.func), d),
    ensures
        d matches DocModel::Object(ms) && model_lookup(ms, p.key@) is Some,
{
}


/// A filter step on an array keeps, in order, exactly the items that meet the filter;
/// on anything else it selects nothing.
pub proof fn law_filter_step(key: Seq<char>, f: FuncModel, d: DocModel)
    ensures
        select(SelectorModel::Filter(key, f), d) == (match d {
            DocModel::Array(a) => a.filter(meets(key, f)),
            _ => Seq::empty(),
        }),
{
    if d is Array {
        lemma_filtered_is_filter(d->Array_0, key, f);
    }
}

/// The documents that meet a filter.
pub open spec fn meets(key: Seq<char>, f: FuncModel) -> spec_fn(DocModel) -> bool {
    |x: DocModel| holds(key, f, x)
}

proof fn lemma_filtered_is_filter(a: Seq<DocModel>, key: Seq<char>, f: FuncModel)
    ensures
        filtered(a, key, f) == a.filter(meets(key, f)),
    decreases a.len(),
{
    reveal_with_fuel(Seq::<DocModel>::filter, 1);
    if a.len() > 0 {
        lemma_filtered_is_filter(a.drop_last(), key, f);
        assert(meets(key, f)(a.last()) == holds(key, f, a.last()));
    } else {
        assert(a =~= Seq::<DocModel>::empty());
    }
}

/// One step of a query: a name selects the value of the object's member of that name, an
/// index the item of the array at that index, nothing when there is none.
pub proof fn law_child_and_index_steps(d: DocModel, name: Seq<char>, i: nat)
    ensures
        steps_result(seq![SelectorModel::NameChild(name)], d) == (match d {
            DocModel::Object(ms) => match model_lookup(ms, name) {
                Some(v) => seq![v],
                None => Seq::empty(),
            },
            _ => Seq::empty(),
        }),
        steps_result(seq![SelectorModel::ArrayIndex(i)], d) == (match d {
            DocModel::Array(a) => if i < a.len() { seq![a[i as int]] } else { Seq::empty() },
            _ => Seq::empty(),
        }),
{
    let s1 = seq![SelectorModel::NameChild(name)];
    let s2 = seq![SelectorModel::ArrayIndex(i)];
    assert(selected(s1, 0, d) == seq![d]);
    assert(selected(s2, 0, d) == seq![d]);
    assert(seq![d].drop_last() =~= Seq::<DocModel>::empty());
    assert(select_all(s1[0], seq![d]) == select_all(s1[0], Seq::<DocModel>::empty()) + select(s1[0], d));
    assert(select_all(s2[0], seq![d]) == select_all(s2[0], Seq::<DocModel>::empty()) + select(s2[0], d));
    assert(Seq::<DocModel>::empty() + select(s1[0], d) =~= select(s1[0], d));
    assert(Seq::<DocModel>::empty() + select(s2[0], d) =~= select(s2[0], d));
}

/// The comparison written in a filter means what it says: `==` equal, `>` greater,
/// `>=` greater or equal, `<` less, `<=` less or equal.
pub proof fn law_written_comparison(s: Seq<char>, i: int, x: int)
    requires
        op_at(s, i) is Some,
    ensures
        at(s, i, '=') ==> (order_meets(op_at(s, i)->Some_0.0, x) <==> x == 0),
        at(s, i, '>') && !at(s, i + 1, '=') ==> (order_meets(op_at(s, i)->Some_0.0, x) <==> x > 0),
        at(s, i, '>') && at(s, i + 1, '=') ==> (order_meets(op_at(s, i)->Some_0.0, x) <==> x >= 0),
        at(s, i, '<') && !at(s, i + 1, '=') ==> (order_meets(op_at(s, i)->Some_0.0, x) <==> x < 0),
        at(s, i, '<') && at(s, i + 1, '=') ==> (order_meets(op_at(s, i)->Some_0.0, x) <==> x <= 0),
{
}


/// A name runs to the end of a text made of name characters.
proof fn lemma_name_end_all(s: Seq<char>, i: int)
    requires
        0 <= i <= s.len(),
        forall|k: int| i <= k < s.len() ==> name_char(#[trigger] s[k]),
    ensures
        name_end(s, i) == s.len(),
    decreases s.len() - i,
{
    if i < s.len() {
        lemma_name_end_all(s, i + 1);
    }
}

/// `$.name` selects the member `name` and `$..name` every member `name` at any depth,
/// for any name made of letters, digits, `_` and `-`; a text that does not start with
/// `$` is no query.
pub proof fn law_parse_name_steps(name: Seq<char>, s: Seq<char>)
    requires
        name.len() > 0,
        forall|k: int| 0 <= k < name.len() ==> name_char(#[trigger] name[k]),
    ensures
        query_steps(seq!['$', '.'] + name) == Some(seq![SelectorModel::NameChild(name)]),
        query_steps(seq!['$', '.', '.'] + name) == Some(seq![SelectorModel::RecursiveKey(name)]),
        !(s.len() > 0 && s[0] == '$') ==> query_steps(s) is None,
{
    let t1 = seq!['$', '.'] + name;
    let t2 = seq!['$', '.', '.'] + name;
    lemma_name_end_all(t1, 2);
    lemma_name_end_all(t2, 3);
    assert(t1.subrange(2, t1.len() as int) =~= name);
    assert(t2.subrange(3, t2.len() as int) =~= name);
    assert(name_char(name[0]));
    assert(t1[2] == name[0]);
    assert(!at(t1, 2, '.'));
    assert(steps_from(t1, t1.len() as int) == Some(Seq::<SelectorModel>::empty()));
    assert(steps_from(t2, t2.len() as int) == Some(Seq::<SelectorModel>::empty()));
    assert(seq![SelectorModel::NameChild(name)] + Seq::<SelectorModel>::empty() =~= seq![SelectorModel::NameChild(name)]);
    assert(seq![SelectorModel::RecursiveKey(name)] + Seq::<SelectorModel>::empty() =~= seq![SelectorModel::RecursiveKey(name)]);
}

/// A document that is neither an array nor an object.
pub open spec fn scalar_doc(d: DocModel) -> bool {
    !(d is Array || d is Object)
}

proof fn lemma_recursive_members_scalars(ms: Seq<(Seq<char>, DocModel)>, k: Seq<char>)
    requires
        forall|i: int| 0 <= i < ms.len() ==> scalar_doc(#[trigger] ms[i].1),
    ensures
        recursive_members(ms, k) == Seq::<DocModel>::empty(),
    decreases ms.len(),
{
    if ms.len() > 0 {
        assert(scalar_doc(ms[0].1));
        assert forall|i: int| 0 <= i < ms.drop_first().len() implies scalar_doc(#[trigger] ms.drop_first()[i].1) by {
            assert(ms.drop_first()[i] == ms[i + 1]);
        }
        lemma_recursive_members_scalars(ms.drop_first(), k);
        assert(recursive(ms[0].1, k) == Seq::<DocModel>::empty());
        assert(Seq::<DocModel>::empty() + Seq::<DocModel>::empty() =~= Seq::<DocModel>::empty());
    }
}

/// `..k` on an object whose members hold no array or object selects just its own member
/// `k`, if it has one; on a number, string, boolean or null it selects nothing.
pub proof fn law_recursive_flat(ms: Seq<(Seq<char>, DocModel)>, k: Seq<char>, d: DocModel)
    requires
        forall|i: int| 0 <= i < ms.len() ==> scalar_doc(#[trigger] ms[i].1),
    ensures
        recursive(DocModel::Object(ms), k) == opt_docs(model_lookup(ms, k)),
        scalar_doc(d) ==> recursive(d, k) == Seq::<DocModel>::empty(),
{
    lemma_recursive_members_scalars(ms, k);
    assert(opt_docs(model_lookup(ms, k)) + Seq::<DocModel>::empty() =~= opt_docs(model_lookup(ms, k)));
}


/// A run of decimal digits that starts and ends with a digit other than `0`.
pub open spec fn significant_digits(s: Seq<char>) -> bool {
    &&& s.len() > 0
    &&& forall|k: int| 0 <= k < s.len() ==> '0' <= #[trigger] s[k] && s[k] <= '9'
    &&& s[0] != '0'
    &&& s[s.len() - 1] != '0'
}

/// The order of two integers: -1, 0 or 1.
pub open spec fn int_order(x: int, y: int) -> int {
    if x < y { -1 } else if x == y { 0 } else { 1 }
}

proof fn lemma_digits_front(s: Seq<char>)
    requires
        s.len() > 0,
    ensures
        digits_value(s) == ((s[0] as u32 - '0' as u32) as nat) * pow10((s.len() - 1) as nat) + digits_value(s.drop_first()),
{
    let h = seq![s[0]];
    assert(s =~= h + s.drop_first());
    lemma_digits_concat(h, s.drop_first());
    assert(h.drop_last() =~= Seq::<char>::empty());
    assert(h.last() == s[0]);
    assert(digits_value(h.drop_last()) == 0);
    assert(digits_value(h) == digits_value(h.drop_last()) * 10 + ((h.last() as u32 - '0' as u32) as nat));
}

proof fn lemma_lex_numeric(a: Seq<char>, b: Seq<char>)
    requires
        a.len() == b.len(),
        forall|k: int| 0 <= k < a.len() ==> '0' <= #[trigger] a[k] && a[k] <= '9',
        forall|k: int| 0 <= k < b.len() ==> '0' <= #[trigger] b[k] && b[k] <= '9',
    ensures
        lex_order(a, b) == int_order(digits_value(a) as int, digits_value(b) as int),
    decreases a.len(),
{
    if a.len() > 0 {
        let n = (a.len() - 1) as nat;
        let p = pow10(n);
        lemma_digits_front(a);
        lemma_digits_front(b);
        let ra = digits_value(a.drop_first());
        let rb = digits_value(b.drop_first());
        assert forall|k: int| 0 <= k < a.drop_first().len() implies '0' <= #[trigger] a.drop_first()[k] && a.drop_first()[k] <= '9' by {
            assert(a.drop_first()[k] == a[k + 1]);
        }
        assert forall|k: int| 0 <= k < b.drop_first().len() implies '0' <= #[trigger] b.drop_first()[k] && b.drop_first()[k] <= '9' by {
            assert(b.drop_first()[k] == b[k + 1]);
        }
        lemma_digits_bound(a.drop_first());
        lemma_digits_bound(b.drop_first());
        let da = (a[0] as u32 - '0' as u32) as nat;
        let db = (b[0] as u32 - '0' as u32) as nat;
        assert('0' <= a[0] && a[0] <= '9');
        assert('0' <= b[0] && b[0] <= '9');
        if a[0] < b[0] {
            assert(da + 1 <= db);
            assert(da * p + ra < db * p + rb) by (nonlinear_arith)
                requires da + 1 <= db, ra < p, rb >= 0;
        } else if a[0] > b[0] {
            assert(db + 1 <= da);
            assert(db * p + rb < da * p + ra) by (nonlinear_arith)
                requires db + 1 <= da, rb < p, ra >= 0;
        } else {
            assert(da == db);
            lemma_lex_numeric(a.drop_first(), b.drop_first());
        }
    }
}

proof fn lemma_canonical_significant(d: Decimal)
    requires
        significant_digits(d.digits),
    ensures
        canonical(d) == d,
{
    let s = d.digits;
    assert(lead(s, 0) == 0);
    assert(trail(s, 0, s.len() as int) == s.len());
    assert(s.subrange(0, s.len() as int) =~= s);
}

proof fn lemma_json_decimal_digits(a: Seq<char>, negative: bool)
    requires
        significant_digits(a),
    ensures
        json_decimal(if negative { seq!['-'] + a } else { a }) == (Decimal { negative, digits: a, point: a.len() as int }),
{
    let t = if negative { seq!['-'] + a } else { a };
    let st: int = if negative { 1 } else { 0 };
    assert forall|k: int| st <= k < t.len() implies in_class(CharClass::Digit, #[trigger] t[k]) by {
        if negative {
            assert(t[k] == a[k - 1]);
        }
    }
    crate::reader::lemma_run_end(t, st, t.len() as int, CharClass::Digit);
    assert(sign_len(t) == st);
    assert(t.subrange(st, t.len() as int) =~= a);
    assert(t.subrange(st, t.len() as int) + Seq::<char>::empty() =~= a);
}

/// Filter numbers are ordered by value: for integers written without a sign, or both with
/// a minus sign (and without leading or trailing zeros), a JSON number compares with a
/// filter number as their values do.
pub proof fn law_decimal_order_integers(a: Seq<char>, b: Seq<char>)
    requires
        significant_digits(a),
        significant_digits(b),
    ensures
        decimal_order(json_decimal(a), literal_decimal(false, b, Seq::empty()))
            == int_order(digits_value(a) as int, digits_value(b) as int),
        decimal_order(json_decimal(seq!['-'] + a), literal_decimal(true, b, Seq::empty()))
            == int_order(-(digits_value(a) as int), -(digits_value(b) as int)),
{
    lemma_json_decimal_digits(a, false);
    lemma_json_decimal_digits(a, true);
    let lb = literal_decimal(false, b, Seq::empty());
    let nb = literal_decimal(true, b, Seq::empty());
    assert(b + Seq::<char>::empty() =~= b);
    lemma_canonical_significant(Decimal { negative: false, digits: a, point: a.len() as int });
    lemma_canonical_significant(Decimal { negative: true, digits: a, point: a.len() as int });
    lemma_canonical_significant(lb);
    lemma_canonical_significant(nb);
    let va = digits_value(a);
    let vb = digits_value(b);
    lemma_digits_bound(a);
    lemma_digits_bound(b);
    assert('1' <= a[0] && a[0] <= '9');
    assert('1' <= b[0] && b[0] <= '9');
    lemma_digits_lower(a);
    lemma_digits_lower(b);
    if a.len() < b.len() {
        lemma_pow10_mono(a.len(), (b.len() - 1) as nat);
    } else if a.len() > b.len() {
        lemma_pow10_mono(b.len(), (a.len() - 1) as nat);
    } else {
        lemma_lex_numeric(a, b);
    }
}

} // verus!
