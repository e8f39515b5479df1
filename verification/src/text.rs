use vstd::prelude::*;

verus! {

/// Appends one character to a `String` (std `String::push`).
#[verifier::external_body]
pub(crate) fn push_char(s: &mut String, c: char)
    ensures
        final(s)@ == old(s)@.push(c),
{
    s.push(c);
}

/// The characters of a string slice, in order.
pub fn chars_of(s: &str) -> (v: Vec<char>)
    ensures
        v@ == s@,
{
    let mut v: Vec<char> = Vec::new();
    for c in it: s.chars()
        invariant
            v@ == it.seq().take(it.index() as int),
            it.seq() == s@,
    {
        v.push(c);
    }
    v
}

/// Builds a `String` from a sequence of characters.
pub fn string_of(v: &[char]) -> (s: String)
    ensures
        s@ == v@,
{
    let mut s = String::new();
    let mut i: usize = 0;
    while i < v.len()
        invariant
            i <= v.len(),
            s@ == v@.take(i as int),
        decreases v.len() - i,
    {
        push_char(&mut s, v[i]);
        i += 1;
        assert(v@.take(i as int) == v@.take((i - 1) as int).push(v@[i - 1]));
    }
    assert(v@.take(v.len() as int) == v@);
    s
}

pub fn append_str(s: &mut String, t: &str)
    ensures
        final(s)@ == old(s)@ + t@,
{
    s.append(t);
}

} // verus!

verus! {

/// The character of a decimal digit.
pub open spec fn digit_char(d: int) -> char {
    (48 + d) as char
}

/// The decimal notation of a natural number, without leading zeros.
pub open spec fn nat_decimal(n: nat) -> Seq<char>
    decreases n,
{
    if n < 10 {
        seq![digit_char(n as int)]
    } else {
        nat_decimal(n / 10).push(digit_char((n % 10) as int))
    }
}

/// The decimal notation of an integer, with a leading `-` when negative.
pub open spec fn int_decimal(i: int) -> Seq<char> {
    if i < 0 {
        seq!['-'] + nat_decimal((-i) as nat)
    } else {
        nat_decimal(i as nat)
    }
}

fn push_decimal(s: &mut String, n: u64)
    ensures
        final(s)@ == old(s)@ + nat_decimal(n as nat),
    decreases n,
{
    if n < 10 {
        let d: u8 = n as u8;
        push_char(s, (48u8 + d) as char);
    } else {
        push_decimal(s, n / 10);
        let d: u8 = (n % 10) as u8;
        push_char(s, (48u8 + d) as char);
    }
}

/// Decimal notation of an unsigned integer.
pub fn u64_to_string(n: u64) -> (s: String)
    ensures
        s@ == nat_decimal(n as nat),
{
    let mut s = String::new();
    push_decimal(&mut s, n);
    s
}

/// Decimal notation of a signed integer.
pub fn i64_to_string(i: i64) -> (s: String)
    ensures
        s@ == int_decimal(i as int),
{
    let mut s = String::new();
    if i < 0 {
        push_char(&mut s, '-');
        let m: u64 = if i == i64::MIN { 9223372036854775808u64 } else { (-i) as u64 };
        push_decimal(&mut s, m);
    } else {
        push_decimal(&mut s, i as u64);
    }
    s
}

} // verus!

verus! {

/// `t` occurs in `s` at index `i`.
pub open spec fn occurs_at(s: Seq<char>, t: Seq<char>, i: int) -> bool {
    0 <= i && i + t.len() <= s.len() && s.subrange(i, i + t.len()) == t
}

/// `t` occurs somewhere in `s`.
pub open spec fn contains_seq(s: Seq<char>, t: Seq<char>) -> bool {
    exists|i: int| occurs_at(s, t, i)
}

/// `s` begins with `t`.
pub open spec fn starts_with_seq(s: Seq<char>, t: Seq<char>) -> bool {
    occurs_at(s, t, 0)
}

/// `s` ends with `t`.
pub open spec fn ends_with_seq(s: Seq<char>, t: Seq<char>) -> bool {
    occurs_at(s, t, s.len() - t.len())
}

/// Whether `t` occurs in `s` at index `i`.
pub fn slice_occurs_at(s: &[char], t: &[char], i: usize) -> (b: bool)
    ensures
        b == occurs_at(s@, t@, i as int),
{
    if i > s.len() || t.len() > s.len() - i {
        return false;
    }
    let mut j: usize = 0;
    while j < t.len()
        invariant
            i + t.len() <= s.len(),
            j <= t.len(),
            forall|k: int| 0 <= k < j ==> s@[i + k] == t@[k],
        decreases t.len() - j,
    {
        if s[i + j] != t[j] {
            assert(s@.subrange(i as int, i + t.len())[j as int] != t@[j as int]);
            return false;
        }
        j += 1;
    }
    assert(s@.subrange(i as int, i + t.len()) =~= t@);
    true
}

/// Whether `t` occurs in `s`.
pub fn slice_contains(s: &[char], t: &[char]) -> (b: bool)
    ensures
        b == contains_seq(s@, t@),
{
    if t.len() > s.len() {
        assert(forall|i: int| !occurs_at(s@, t@, i));
        return false;
    }
    let last = s.len() - t.len();
    let mut i: usize = 0;
    loop
        invariant
            t.len() <= s.len(),
            last == s.len() - t.len(),
            i <= last,
            forall|k: int| 0 <= k < i ==> !occurs_at(s@, t@, k),
        ensures
            forall|k: int| 0 <= k <= last ==> !occurs_at(s@, t@, k),
        decreases last - i,
    {
        if slice_occurs_at(s, t, i) {
            return true;
        }
        if i == last {
            break;
        }
        i += 1;
    }
    assert(forall|k: int| !occurs_at(s@, t@, k));
    false
}

/// Whether two strings hold the same characters.
pub fn str_eq(a: &str, b: &str) -> (r: bool)
    ensures
        r == (a@ == b@),
{
    let va = chars_of(a);
    let vb = chars_of(b);
    if va.len() != vb.len() {
        return false;
    }
    let r = slice_occurs_at(va.as_slice(), vb.as_slice(), 0);
    proof {
        if r {
            assert(va@.subrange(0, va@.len() as int) == va@);
        } else {
            assert(va@.subrange(0, vb@.len() as int) == va@);
        }
    }
    r
}

/// Whether `t` occurs in `s`.
pub fn str_contains(s: &str, t: &str) -> (r: bool)
    ensures
        r == contains_seq(s@, t@),
{
    let vs = chars_of(s);
    let vt = chars_of(t);
    slice_contains(vs.as_slice(), vt.as_slice())
}

/// Whether `s` begins with `t`.
pub fn str_starts_with(s: &str, t: &str) -> (r: bool)
    ensures
        r == starts_with_seq(s@, t@),
{
    let vs = chars_of(s);
    let vt = chars_of(t);
    slice_occurs_at(vs.as_slice(), vt.as_slice(), 0)
}

/// Whether `s` ends with `t`.
pub fn str_ends_with(s: &str, t: &str) -> (r: bool)
    ensures
        r == ends_with_seq(s@, t@),
{
    let vs = chars_of(s);
    let vt = chars_of(t);
    if vt.len() > vs.len() {
        return false;
    }
    slice_occurs_at(vs.as_slice(), vt.as_slice(), vs.len() - vt.len())
}

} // verus!

verus! {

/// The lower-case hexadecimal digit of `d` (for `0 <= d < 16`).
pub open spec fn hex_digit_char(d: int) -> char {
    if d < 10 { (48 + d) as char } else { (87 + d) as char }
}

/// Lower-case hexadecimal notation of a natural number, without leading zeros.
pub open spec fn nat_hex(n: nat) -> Seq<char>
    decreases n,
{
    if n < 16 {
        seq![hex_digit_char(n as int)]
    } else {
        nat_hex(n / 16).push(hex_digit_char((n % 16) as int))
    }
}

fn push_hex(s: &mut String, n: u64)
    ensures
        final(s)@ == old(s)@ + nat_hex(n as nat),
    decreases n,
{
    if n >= 16 {
        push_hex(s, n / 16);
    }
    let d: u8 = (n % 16) as u8;
    let c = if d < 10 { (48u8 + d) as char } else { (87u8 + d) as char };
    push_char(s, c);
}

/// Lower-case hexadecimal notation of an unsigned integer.
pub fn u64_to_hex(n: u64) -> (s: String)
    ensures
        s@ == nat_hex(n as nat),
{
    let mut s = String::new();
    push_hex(&mut s, n);
    s
}

/// The parts joined by the separator.
pub open spec fn join(parts: Seq<Seq<char>>, sep: Seq<char>) -> Seq<char>
    decreases parts.len(),
{
    if parts.len() == 0 {
        Seq::empty()
    } else if parts.len() == 1 {
        parts[0]
    } else {
        join(parts.drop_last(), sep) + sep + parts.last()
    }
}

/// The views of a vector of strings.
pub open spec fn views(v: Seq<String>) -> Seq<Seq<char>> {
    v.map_values(|x: String| x@)
}

/// Joins strings with a separator.
pub fn join_strings(parts: &Vec<String>, sep: &str) -> (s: String)
    ensures
        s@ == join(views(parts@), sep@),
{
    let mut s = String::new();
    let mut i: usize = 0;
    while i < parts.len()
        invariant
            i <= parts.len(),
            s@ == join(views(parts@).take(i as int), sep@),
        decreases parts.len() - i,
    {
        if i > 0 {
            append_str(&mut s, sep);
        }
        append_str(&mut s, parts[i].as_str());
        proof {
            let t = views(parts@).take(i + 1);
            assert(t.drop_last() == views(parts@).take(i as int));
            assert(t.last() == parts@[i as int]@);
        }
        i += 1;
    }
    assert(views(parts@).take(parts.len() as int) == views(parts@));
    s
}

/// The text of a boolean.
pub open spec fn bool_text(b: bool) -> Seq<char> {
    if b { seq!['t', 'r', 'u', 'e'] } else { seq!['f', 'a', 'l', 's', 'e'] }
}

/// `true` or `false`.
pub fn bool_to_string(b: bool) -> (s: String)
    ensures
        s@ == bool_text(b),
{
    let s = if b { "true".to_string() } else { "false".to_string() };
    proof {
        reveal_strlit("true");
        reveal_strlit("false");
    }
    s
}

/// A string holding the characters of a literal.
pub fn lit(s: &str) -> (r: String)
    ensures
        r@ == s@,
{
    s.to_string()
}

} // verus!

verus! {

/// What std `char::is_alphanumeric` answers for a character (Unicode tables).
pub uninterp spec fn alphanumeric(c: char) -> bool;

/// std `char::is_alphanumeric`.
#[verifier::external_body]
pub(crate) fn is_alphanumeric(c: char) -> (b: bool)
    ensures
        b == alphanumeric(c),
{
    c.is_alphanumeric()
}

/// A control character (Unicode general category Cc): U+0000 to U+001F and U+007F to
/// U+009F.
pub open spec fn control(c: char) -> bool {
    (c as u32) <= 0x1F || (0x7F <= (c as u32) && (c as u32) <= 0x9F)
}

/// std `char::is_control`: the character is of general category Cc.
#[verifier::external_body]
pub(crate) fn is_control(c: char) -> (b: bool)
    ensures
        b == control(c),
{
    c.is_control()
}

} // verus!

verus! {

/// The scalar value of a character.
pub open spec fn scalar_value(c: char) -> u32 {
    c as u32
}

/// The character whose scalar value is `v` (there is at most one).
pub open spec fn char_of(v: u32) -> char {
    choose|c: char| #[trigger] scalar_value(c) == v
}

/// std `char::from_u32`: the character whose scalar value is `v`, when `v` is a
/// Unicode scalar value (below `0xD800`, or from `0xE000` to `0x10FFFF`), else none.
#[verifier::external_body]
pub(crate) fn char_from_u32(v: u32) -> (r: Option<char>)
    ensures
        r is Some <==> (v < 0xD800 || (0xE000 <= v && v <= 0x10FFFF)),
        r matches Some(c) ==> c == char_of(v),
{
    char::from_u32(v)
}

} // verus!

verus! {

pub proof fn lemma_occurs_single(s: Seq<char>, c: char, i: int)
    ensures
        occurs_at(s, seq![c], i) <==> (0 <= i < s.len() && s[i] == c),
{
    if 0 <= i < s.len() && s[i] == c {
        assert(s.subrange(i, i + 1) =~= seq![c]);
    }
    if occurs_at(s, seq![c], i) {
        assert(s.subrange(i, i + 1)[0] == s[i]);
    }
}

} // verus!

verus! {

/// Whether two character slices are equal.
pub fn chars_eq(a: &[char], b: &[char]) -> (r: bool)
    ensures
        r == (a@ == b@),
{
    if a.len() != b.len() {
        return false;
    }
    let r = slice_occurs_at(a, b, 0);
    proof {
        assert(a@.subrange(0, a@.len() as int) == a@);
    }
    r
}

/// The pieces of `s` between the occurrences of `sep` (std `str::split` on a char).
pub open spec fn split_on(s: Seq<char>, sep: char) -> Seq<Seq<char>>
    decreases s.len(),
{
    if s.len() == 0 {
        seq![Seq::empty()]
    } else {
        let p = split_on(s.drop_last(), sep);
        if s.last() == sep {
            p.push(Seq::empty())
        } else {
            p.update(p.len() - 1, p.last().push(s.last()))
        }
    }
}

/// There is always at least one piece.
pub proof fn lemma_split_on_len(s: Seq<char>, sep: char)
    ensures
        split_on(s, sep).len() >= 1,
    decreases s.len(),
{
    if s.len() > 0 {
        lemma_split_on_len(s.drop_last(), sep);
    }
}

/// The views of a vector of character vectors.
pub open spec fn seqs(v: Seq<Vec<char>>) -> Seq<Seq<char>> {
    v.map_values(|x: Vec<char>| x@)
}

/// Splits a character slice on a separator.
pub fn split_chars(s: &[char], sep: char) -> (parts: Vec<Vec<char>>)
    ensures
        seqs(parts@) == split_on(s@, sep),
{
    let mut parts: Vec<Vec<char>> = Vec::new();
    let mut cur: Vec<char> = Vec::new();
    let mut i: usize = 0;
    assert(s@.take(0) =~= Seq::<char>::empty());
    assert(seqs(parts@).push(cur@) =~= seq![Seq::<char>::empty()]);
    while i < s.len()
        invariant
            i <= s.len(),
            seqs(parts@).push(cur@) == split_on(s@.take(i as int), sep),
        decreases s.len() - i,
    {
        let ghost prev = split_on(s@.take(i as int), sep);
        proof {
            lemma_split_on_len(s@.take(i as int), sep);
            assert(s@.take(i + 1).drop_last() =~= s@.take(i as int));
            assert(s@.take(i + 1).last() == s@[i as int]);
        }
        if s[i] == sep {
            let done = cur;
            parts.push(done);
            cur = Vec::new();
            assert(seqs(parts@).push(cur@) =~= prev.push(Seq::empty()));
        } else {
            let ghost old_parts = parts@;
            cur.push(s[i]);
            assert(seqs(parts@).push(cur@) =~= prev.update(prev.len() - 1, prev.last().push(s@[i as int])));
        }
        i += 1;
    }
    assert(s@.take(s.len() as int) =~= s@);
    parts.push(cur);
    assert(seqs(parts@) =~= split_on(s@, sep));
    parts
}

/// Drops the first piece when it is empty.
pub open spec fn trim_first_empty(v: Seq<Seq<char>>) -> Seq<Seq<char>> {
    if v.len() > 0 && v[0].len() == 0 {
        v.drop_first()
    } else {
        v
    }
}

/// Removes the first piece when it is empty.
pub fn drop_leading_empty(v: &mut Vec<Vec<char>>)
    ensures
        seqs(final(v)@) == trim_first_empty(seqs(old(v)@)),
{
    if v.len() > 0 && v[0].len() == 0 {
        let _ = v.remove(0);
        assert(seqs(v@) =~= seqs(old(v)@).drop_first());
    }
}

/// The pieces in reverse order.
pub fn reversed(v: Vec<Vec<char>>) -> (r: Vec<Vec<char>>)
    ensures
        seqs(r@) == seqs(v@).reverse(),
{
    let ghost v0 = seqs(v@);
    let mut v = v;
    let mut r: Vec<Vec<char>> = Vec::new();
    while v.len() > 0
        invariant
            seqs(v@) == v0.take(v.len() as int),
            v.len() + r.len() == v0.len(),
            seqs(r@) == v0.reverse().take(r.len() as int),
        decreases v.len(),
    {
        let ghost n = v.len() as int;
        let ghost old_r = seqs(r@);
        proof {
            assert(seqs(v@)[n - 1] == v0[n - 1]);
        }
        let x = v.pop().unwrap();
        assert(x@ == v0[n - 1]);
        r.push(x);
        assert(seqs(v@) =~= v0.take(v.len() as int));
        assert(v0.reverse()[old_r.len() as int] == v0[n - 1]);
        assert(seqs(r@) =~= old_r.push(x@));
        assert(seqs(r@) =~= v0.reverse().take(r.len() as int));
    }
    assert(seqs(r@) =~= v0.reverse());
    r
}

/// `a` is a prefix of `b`, piece by piece.
pub open spec fn pieces_prefix(a: Seq<Seq<char>>, b: Seq<Seq<char>>) -> bool {
    a.len() <= b.len() && forall|i: int| 0 <= i < a.len() ==> #[trigger] a[i] == b[i]
}

/// Whether `a` is a prefix of `b`, piece by piece.
pub fn is_pieces_prefix(a: &Vec<Vec<char>>, b: &Vec<Vec<char>>) -> (r: bool)
    ensures
        r == pieces_prefix(seqs(a@), seqs(b@)),
{
    if a.len() > b.len() {
        return false;
    }
    let mut i: usize = 0;
    while i < a.len()
        invariant
            a.len() <= b.len(),
            i <= a.len(),
            forall|k: int| 0 <= k < i ==> #[trigger] seqs(a@)[k] == seqs(b@)[k],
        decreases a.len() - i,
    {
        if !chars_eq(a[i].as_slice(), b[i].as_slice()) {
            assert(seqs(a@)[i as int] != seqs(b@)[i as int]);
            return false;
        }
        i += 1;
    }
    true
}

/// `c` does not occur in `s`.
pub open spec fn no_char(s: Seq<char>, c: char) -> bool {
    forall|i: int| 0 <= i < s.len() ==> s[i] != c
}

/// Appending text without a separator extends the last piece.
pub proof fn lemma_split_append_plain(x: Seq<char>, b: Seq<char>, sep: char)
    requires
        no_char(b, sep),
    ensures
        split_on(x + b, sep) == split_on(x, sep).update(split_on(x, sep).len() - 1, split_on(x, sep).last() + b),
    decreases b.len(),
{
    lemma_split_on_len(x, sep);
    let q = split_on(x, sep);
    if b.len() == 0 {
        assert(x + b =~= x);
        assert(q.last() + b =~= q.last());
        assert(q.update(q.len() - 1, q.last() + b) =~= q);
    } else {
        let b2 = b.drop_last();
        lemma_split_append_plain(x, b2, sep);
        assert((x + b).drop_last() =~= x + b2);
        assert((x + b).last() == b.last());
        assert(b.last() == b[b.len() - 1]);
        let p = split_on(x + b2, sep);
        assert(p.last() == q.last() + b2);
        assert((q.last() + b2).push(b.last()) =~= q.last() + b);
        assert(split_on(x + b, sep) =~= q.update(q.len() - 1, q.last() + b));
    }
}

/// Text without a separator is a single piece.
pub proof fn lemma_split_plain(b: Seq<char>, sep: char)
    requires
        no_char(b, sep),
    ensures
        split_on(b, sep) == seq![b],
{
    lemma_split_append_plain(Seq::empty(), b, sep);
    assert(Seq::<char>::empty() + b =~= b);
    assert(seq![Seq::<char>::empty()].update(0, Seq::<char>::empty() + b) =~= seq![b]);
}

/// A separator followed by text without a separator adds that text as a last piece.
pub proof fn lemma_split_field(a: Seq<char>, b: Seq<char>, sep: char)
    requires
        no_char(b, sep),
    ensures
        split_on(a + seq![sep] + b, sep) == split_on(a, sep).push(b),
{
    let x = a + seq![sep];
    assert(x.drop_last() =~= a);
    assert(x.last() == sep);
    lemma_split_on_len(x, sep);
    lemma_split_append_plain(x, b, sep);
    assert(Seq::<char>::empty() + b =~= b);
    assert(split_on(x, sep).update(split_on(x, sep).len() - 1, Seq::<char>::empty() + b) =~= split_on(a, sep).push(b));
}

/// Decimal notation holds digits only.
pub proof fn lemma_nat_decimal_digits(n: nat)
    ensures
        forall|i: int| 0 <= i < nat_decimal(n).len() ==> 48 <= (#[trigger] nat_decimal(n)[i]) as int <= 57,
    decreases n,
{
    if n >= 10 {
        lemma_nat_decimal_digits(n / 10);
        let d = (n % 10) as int;
        assert((digit_char(d) as int) == 48 + d);
        let p = nat_decimal(n / 10);
        assert forall|i: int| 0 <= i < nat_decimal(n).len() implies 48 <= (#[trigger] nat_decimal(n)[i]) as int <= 57 by {
            if i < p.len() {
                assert(nat_decimal(n)[i] == p[i]);
            }
        }
    } else {
        assert((digit_char(n as int) as int) == 48 + n);
    }
}

/// The decimal notation of an integer holds nothing but digits and a minus sign.
pub proof fn lemma_int_decimal_no_char(i: int, c: char)
    requires
        c != '-',
        (c as int) < 48 || (c as int) > 57,
    ensures
        no_char(int_decimal(i), c),
{
    if i < 0 {
        lemma_nat_decimal_digits((-i) as nat);
        let s = int_decimal(i);
        assert forall|k: int| 0 <= k < s.len() implies s[k] != c by {
            if k > 0 {
                assert(s[k] == nat_decimal((-i) as nat)[k - 1]);
            }
        }
    } else {
        lemma_nat_decimal_digits(i as nat);
    }
}

/// What std `str::to_lowercase` returns for a text: each character mapped by the
/// Unicode lowercase tables.
pub uninterp spec fn lowercase(s: Seq<char>) -> Seq<char>;

/// std `str::to_lowercase`.
#[verifier::external_body]
pub(crate) fn to_lowercase(s: &str) -> (r: String)
    ensures
        r@ == lowercase(s@),
{
    s.to_lowercase()
}

/// The value of a decimal numeral.
pub open spec fn digits_value(s: Seq<char>) -> nat
    decreases s.len(),
{
    if s.len() == 0 {
        0
    } else {
        digits_value(s.drop_last()) * 10 + (s.last() as nat - 48) as nat
    }
}

/// All characters are ASCII digits.
pub open spec fn all_digits(s: Seq<char>) -> bool {
    forall|i: int| 0 <= i < s.len() ==> '0' <= #[trigger] s[i] <= '9'
}

/// What std `i64::from_str` accepts: an optional `+` or `-` then at least one digit,
/// with a value that fits; the value.
pub open spec fn i64_numeral(s: Seq<char>) -> Option<int> {
    let neg = s.len() > 0 && s[0] == '-';
    let d = if s.len() > 0 && (s[0] == '+' || s[0] == '-') { s.drop_first() } else { s };
    let v: int = if neg { -digits_value(d) } else { digits_value(d) as int };
    if d.len() > 0 && all_digits(d) && i64::MIN <= v <= i64::MAX {
        Some(v)
    } else {
        None
    }
}

/// std `str::parse::<i64>`: a value when the text is an optional sign followed by
/// digits whose value fits in `i64`, else nothing.
#[verifier::external_body]
pub(crate) fn parse_i64(s: &str) -> (r: Option<i64>)
    ensures
        match r {
            Some(n) => i64_numeral(s@) == Some(n as int),
            None => i64_numeral(s@) is None,
        },
{
    s.parse::<i64>().ok()
}

/// The pieces that the regex crate splits a text into at the matches of a pattern.
pub uninterp spec fn regex_pieces(pattern: Seq<char>, text: Seq<char>) -> Option<Seq<Seq<char>>>;

/// The lines of a text: the pieces between its line breaks, `\n` or `\r\n`, where a
/// `\r` just before a `\n` belongs to the break.
pub open spec fn line_pieces(t: Seq<char>) -> Seq<Seq<char>> {
    let ps = split_on(t, '\n');
    Seq::new(
        ps.len(),
        |i: int| if i + 1 < ps.len() && ps[i].len() > 0 && ps[i].last() == '\r' { ps[i].drop_last() } else { ps[i] },
    )
}

/// `regex::Regex::new(pattern)` then `split(text)`: the pieces of the text between the
/// matches of the pattern, or nothing when the pattern is not a regular expression. The
/// line break pattern `\n|\r\n` is one; a match of it starts at the `\r` of a `\r\n`
/// (the leftmost match), so its pieces are the lines of the text.
#[verifier::external_body]
pub(crate) fn regex_split(pattern: &str, text: &str) -> (r: Option<Vec<String>>)
    ensures
        match r {
            Some(v) => regex_pieces(pattern@, text@) == Some(views(v@)),
            None => regex_pieces(pattern@, text@) is None,
        },
        pattern@ == "\n|\r\n"@ ==> r is Some && views(r->0@) == line_pieces(text@),
{
    let re = regex::Regex::new(pattern).ok()?;
    Some(re.split(text).map(str::to_string).collect())
}


/// A whitespace character (Unicode `White_Space`): U+0009 to U+000D, U+0020, U+0085,
/// U+00A0, U+1680, U+2000 to U+200A, U+2028, U+2029, U+202F, U+205F and U+3000.
pub open spec fn whitespace(c: char) -> bool {
    let v = c as u32;
    (0x09 <= v && v <= 0x0D) || v == 0x20 || v == 0x85 || v == 0xA0 || v == 0x1680
        || (0x2000 <= v && v <= 0x200A) || v == 0x2028 || v == 0x2029 || v == 0x202F || v == 0x205F
        || v == 0x3000
}

/// std `char::is_whitespace`: the character has the Unicode `White_Space` property.
#[verifier::external_body]
pub(crate) fn is_whitespace(c: char) -> (b: bool)
    ensures
        b == whitespace(c),
{
    c.is_whitespace()
}

/// A text without its leading whitespace.
pub open spec fn trim_start_seq(s: Seq<char>) -> Seq<char>
    decreases s.len(),
{
    if s.len() > 0 && whitespace(s[0]) { trim_start_seq(s.drop_first()) } else { s }
}

/// A text without its trailing whitespace.
pub open spec fn trim_end_seq(s: Seq<char>) -> Seq<char>
    decreases s.len(),
{
    if s.len() > 0 && whitespace(s.last()) { trim_end_seq(s.drop_last()) } else { s }
}

/// A text without its leading and trailing whitespace (std `str::trim`).
pub open spec fn trimmed(s: Seq<char>) -> Seq<char> {
    trim_end_seq(trim_start_seq(s))
}

/// The characters without their leading and trailing whitespace.
pub fn trim_chars(s: &[char]) -> (r: Vec<char>)
    ensures
        r@ == trimmed(s@),
{
    let mut i: usize = 0;
    assert(s@.skip(0) =~= s@);
    while i < s.len() && is_whitespace(s[i])
        invariant
            i <= s.len(),
            trim_start_seq(s@) == trim_start_seq(s@.skip(i as int)),
        decreases s.len() - i,
    {
        assert(s@.skip(i as int).drop_first() =~= s@.skip(i + 1));
        assert(s@.skip(i as int)[0] == s@[i as int]);
        i += 1;
    }
    if i < s.len() {
        assert(s@.skip(i as int)[0] == s@[i as int]);
    }
    assert(trim_start_seq(s@) == s@.skip(i as int));
    let mut j: usize = s.len();
    assert(s@.subrange(i as int, j as int) =~= s@.skip(i as int));
    while j > i && is_whitespace(s[j - 1])
        invariant
            i <= j <= s.len(),
            trim_end_seq(s@.skip(i as int)) == trim_end_seq(s@.subrange(i as int, j as int)),
        decreases j - i,
    {
        assert(s@.subrange(i as int, j as int).drop_last() =~= s@.subrange(i as int, j - 1));
        assert(s@.subrange(i as int, j as int).last() == s@[j - 1]);
        j -= 1;
    }
    if j > i {
        assert(s@.subrange(i as int, j as int).last() == s@[j - 1]);
    }
    let mut r: Vec<char> = Vec::new();
    let mut k: usize = i;
    while k < j
        invariant
            i <= k <= j,
            j <= s.len(),
            r@ == s@.subrange(i as int, k as int),
        decreases j - k,
    {
        r.push(s[k]);
        k += 1;
        assert(r@ =~= s@.subrange(i as int, k as int));
    }
    r
}


/// Whether the regex crate accepts a pattern.
pub uninterp spec fn regex_valid(pattern: Seq<char>) -> bool;

/// Whether a pattern the regex crate accepts matches somewhere in a text.
pub uninterp spec fn regex_is_match(pattern: Seq<char>, text: Seq<char>) -> bool;

/// `regex::Regex::new(pattern)` then `is_match(text)`: nothing when the pattern is not a
/// regular expression; the contract only names the answers.
#[verifier::external_body]
pub(crate) fn regex_match(pattern: &str, text: &str) -> (r: Option<bool>)
    ensures
        r is Some <==> regex_valid(pattern@),
        r matches Some(b) ==> b == regex_is_match(pattern@, text@),
{
    let re = regex::Regex::new(pattern).ok()?;
    Some(re.is_match(text))
}

/// The text of the first capture group in the leftmost match of a pattern the regex
/// crate accepts; nothing when there is no match or the group took no part in it.
pub uninterp spec fn regex_capture1(pattern: Seq<char>, text: Seq<char>) -> Option<Seq<char>>;

/// `regex::Regex::new(pattern)` then `captures(text)` and its group 1: nothing when the
/// pattern is not a regular expression; the contract only names the group's text.
#[verifier::external_body]
pub(crate) fn regex_first_capture(pattern: &str, text: &str) -> (r: Option<Option<String>>)
    ensures
        r is Some <==> regex_valid(pattern@),
        r matches Some(c) ==> match c {
            Some(g) => regex_capture1(pattern@, text@) == Some(g@),
            None => regex_capture1(pattern@, text@) is None,
        },
{
    let re = regex::Regex::new(pattern).ok()?;
    match re.captures(text) {
        Some(c) => match c.get(1) {
            Some(m) => Some(Some(m.as_str().to_string())),
            None => Some(None),
        },
        None => Some(None),
    }
}

} // verus!
