use vstd::prelude::*;
use vstd::utf8::{decode_utf8, valid_utf8};

verus! {

/// An error of the command line tool, with its message.
#[derive(Clone, Debug, PartialEq, Eq)]
pub struct CliError {
    pub message: String,
}

/// The byte order mark that may begin a UTF-8 file.
pub open spec fn bom() -> Seq<u8> {
    seq![0xefu8, 0xbbu8, 0xbfu8]
}

/// The bytes without a leading byte order mark.
pub open spec fn without_bom(b: Seq<u8>) -> Seq<u8> {
    if b.len() >= 3 && b.take(3) == bom() { b.skip(3) } else { b }
}

/// Removes a leading byte order mark.
pub fn strip_bom(bytes: &mut Vec<u8>)
    ensures
        final(bytes)@ == without_bom(old(bytes)@),
{
    if bytes.len() >= 3 && bytes[0] == 0xef && bytes[1] == 0xbb && bytes[2] == 0xbf {
        let ghost b = bytes@;
        assert(b.take(3) =~= bom());
        let mut rest: Vec<u8> = Vec::new();
        let mut i: usize = 3;
        while i < bytes.len()
            invariant
                3 <= i <= bytes.len(),
                bytes@ == b,
                rest@ == b.subrange(3, i as int),
            decreases bytes.len() - i,
        {
            rest.push(bytes[i]);
            i += 1;
            assert(rest@ =~= b.subrange(3, i as int));
        }
        *bytes = rest;
        assert(bytes@ =~= b.skip(3));
    } else {
        assert(bytes@.len() >= 3 ==> bytes@.take(3) != bom()) by {
            if bytes@.len() >= 3 && bytes@.take(3) == bom() {
                assert(bytes@.take(3)[0] == bytes@[0]);
                assert(bytes@.take(3)[1] == bytes@[1]);
                assert(bytes@.take(3)[2] == bytes@[2]);
            }
        }
    }
}

/// What the error of std `String::from_utf8` says for bytes that are not UTF-8.
pub uninterp spec fn utf8_error_message(b: Seq<u8>) -> Seq<char>;

/// std `String::from_utf8`: the text when the bytes are UTF-8, else the message of the
/// error (`Utf8Error` as text).
#[verifier::external_body]
pub(crate) fn utf8_string(bytes: Vec<u8>) -> (r: Result<String, String>)
    ensures
        match r {
            Ok(s) => valid_utf8(bytes@) && s@ == decode_utf8(bytes@),
            Err(m) => !valid_utf8(bytes@) && m@ == utf8_error_message(bytes@),
        },
{
    String::from_utf8(bytes).map_err(|e| e.utf8_error().to_string())
}

/// The text of UTF-8 bytes, without a leading byte order mark.
pub fn string_from_utf8(buffer: Vec<u8>) -> (r: Result<String, CliError>)
    ensures
        match r {
            Ok(s) => valid_utf8(without_bom(buffer@)) && s@ == decode_utf8(without_bom(buffer@)),
            Err(e) => !valid_utf8(without_bom(buffer@)) && e.message@ == utf8_error_message(without_bom(buffer@)),
        },
{
    let mut buffer = buffer;
    strip_bom(&mut buffer);
    match utf8_string(buffer) {
        Ok(s) => Ok(s),
        Err(message) => Err(CliError { message }),
    }
}

} // verus!
