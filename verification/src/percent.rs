use vstd::prelude::*;

use vstd::utf8::encode_utf8;

use crate::text::push_char;

verus! {

/// The value of a hexadecimal digit, upper or lower case.
pub open spec fn hex_value(b: u8) -> Option<u8> {
    if 48 <= b <= 57 {
        Some((b - 48) as u8)
    } else if 65 <= b <= 70 {
        Some((b - 55) as u8)
    } else if 97 <= b <= 102 {
        Some((b - 87) as u8)
    } else {
        None
    }
}

/// Percent-decoding: `%` followed by two hexadecimal digits is the byte they write;
/// every other byte stays.
pub open spec fn percent_decoded(b: Seq<u8>) -> Seq<u8>
    decreases b.len(),
{
    if b.len() == 0 {
        Seq::empty()
    } else if b[0] == 37 && b.len() >= 3 && hex_value(b[1]) is Some && hex_value(b[2]) is Some {
        seq![(hex_value(b[1])->0 * 16 + hex_value(b[2])->0) as u8] + percent_decoded(b.skip(3))
    } else {
        seq![b[0]] + percent_decoded(b.skip(1))
    }
}

/// `percent_encoding::percent_decode`, collected: each `%` followed by two hexadecimal
/// digits becomes the byte they write, every other byte stays.
#[verifier::external_body]
pub(crate) fn percent_decode_bytes(input: &[u8]) -> (r: Vec<u8>)
    ensures
        r@ == percent_decoded(input@),
{
    percent_encoding::percent_decode(input).collect()
}

/// An upper-case hexadecimal digit.
pub open spec fn upper_hex(d: int) -> char {
    if d < 10 { (48 + d) as char } else { (55 + d) as char }
}

/// The percent-encoding of a byte: `%` and two upper-case hexadecimal digits.
pub open spec fn byte_escape(b: u8) -> Seq<char> {
    seq!['%', upper_hex(b as int / 16), upper_hex(b as int % 16)]
}

/// `percent_encoding::percent_encode_byte`: `%` and the two upper-case hexadecimal
/// digits of the byte.
#[verifier::external_body]
pub(crate) fn escape_byte(b: u8) -> (r: &'static str)
    ensures
        r@ == byte_escape(b),
{
    percent_encoding::percent_encode_byte(b)
}

/// A byte that a query value percent-encodes: a control, a non-ASCII byte, space, or
/// one of `"` `:` `/` `<` `>` `+` `=` `?` `%` and the backquote.
pub open spec fn fragment_byte(b: u8) -> bool {
    b < 32 || b >= 127 || b == 32 || b == 34 || b == 58 || b == 47 || b == 60 || b == 62
        || b == 43 || b == 61 || b == 63 || b == 37 || b == 96
}

/// The percent-encoding of UTF-8 bytes for a query value.
pub open spec fn fragment_encoded(b: Seq<u8>) -> Seq<char>
    decreases b.len(),
{
    if b.len() == 0 {
        Seq::empty()
    } else {
        fragment_encoded(b.drop_last()) + if fragment_byte(b.last()) { byte_escape(b.last()) } else { seq![b.last() as char] }
    }
}

/// Percent-encodes the UTF-8 bytes of a query value.
pub fn encode_fragment(s: &str) -> (r: String)
    ensures
        r@ == fragment_encoded(encode_utf8(s@)),
{
    let bytes = s.as_bytes();
    let mut r = String::new();
    let mut i: usize = 0;
    while i < bytes.len()
        invariant
            i <= bytes.len(),
            bytes@ == encode_utf8(s@),
            r@ == fragment_encoded(bytes@.take(i as int)),
        decreases bytes.len() - i,
    {
        assert(bytes@.take(i + 1).drop_last() =~= bytes@.take(i as int));
        let b = bytes[i];
        if b < 32 || b >= 127 || b == 32 || b == 34 || b == 58 || b == 47 || b == 60 || b == 62
            || b == 43 || b == 61 || b == 63 || b == 37 || b == 96 {
            let e = escape_byte(b);
            crate::text::append_str(&mut r, e);
        } else {
            push_char(&mut r, b as char);
        }
        i += 1;
    }
    assert(bytes@.take(bytes.len() as int) =~= bytes@);
    r
}


/// The bytes of a text of ASCII characters.
pub open spec fn ascii_bytes(s: Seq<char>) -> Seq<u8> {
    s.map_values(|c: char| c as u8)
}

/// How one byte is written in a query value.
pub open spec fn fragment_piece(x: u8) -> Seq<char> {
    if fragment_byte(x) { byte_escape(x) } else { seq![x as char] }
}

proof fn lemma_fragment_concat(a: Seq<u8>, b: Seq<u8>)
    ensures
        fragment_encoded(a + b) == fragment_encoded(a) + fragment_encoded(b),
    decreases b.len(),
{
    if b.len() == 0 {
        assert(a + b =~= a);
        assert(fragment_encoded(a) + fragment_encoded(b) =~= fragment_encoded(a));
    } else {
        assert((a + b).drop_last() =~= a + b.drop_last());
        assert((a + b).last() == b.last());
        lemma_fragment_concat(a, b.drop_last());
        assert(fragment_encoded(a + b) =~= fragment_encoded(a) + fragment_encoded(b));
    }
}

proof fn lemma_upper_hex(d: int)
    requires
        0 <= d < 16,
    ensures
        hex_value(upper_hex(d) as u8) == Some(d as u8),
{
}

/// Percent-decoding the percent-encoding of a query value gives its bytes back.
pub proof fn law_fragment_round_trip(b: Seq<u8>)
    ensures
        percent_decoded(ascii_bytes(fragment_encoded(b))) == b,
    decreases b.len(),
{
    if b.len() > 0 {
        let x = b[0];
        let rest = b.drop_first();
        assert(seq![x] + rest =~= b);
        lemma_fragment_concat(seq![x], rest);
        assert(seq![x].drop_last() =~= Seq::<u8>::empty());
        assert(fragment_encoded(Seq::<u8>::empty()) =~= Seq::<char>::empty());
        assert(seq![x].last() == x);
        assert(fragment_encoded(seq![x]) =~= fragment_piece(x));
        let p = ascii_bytes(fragment_piece(x));
        let q = ascii_bytes(fragment_encoded(rest));
        let e = ascii_bytes(fragment_encoded(b));
        assert(e =~= p + q);
        law_fragment_round_trip(rest);
        if fragment_byte(x) {
            let hi = x as int / 16;
            let lo = x as int % 16;
            lemma_upper_hex(hi);
            lemma_upper_hex(lo);
            assert(e[0] == 37u8);
            assert(e[1] == upper_hex(hi) as u8);
            assert(e[2] == upper_hex(lo) as u8);
            assert(e.skip(3) =~= q);
            assert((hi * 16 + lo) as u8 == x);
            assert(percent_decoded(e) =~= seq![x] + rest);
        } else {
            assert(e[0] == x);
            assert(e.skip(1) =~= q);
            assert(percent_decoded(e) =~= seq![x] + rest);
        }
    }
}

} // verus!
