//! Byte/string conversion: the one trusted bridge from UTF-8 bytes to
//! `String`, and lemmas for text the library builds itself out of ASCII
//! bytes.

use vstd::prelude::*;
use vstd::utf8::{
    decode_utf8, encode_utf8, encode_utf8_decode_utf8, encode_utf8_valid_utf8, is_ascii_chars,
    is_ascii_chars_encode_utf8, valid_utf8,
};

verus! {

/// Relies on `String::from_utf8`: it succeeds exactly when the bytes are
/// valid UTF-8, and the returned string's UTF-8 encoding is those bytes.
#[verifier::external_body]
pub(crate) fn utf8_to_string(v: Vec<u8>) -> (r: Option<String>)
    ensures
        r matches Some(s) ==> encode_utf8(s@) == v@,
        r is Some <==> valid_utf8(v@),
{
    String::from_utf8(v).ok()
}

/// The byte each character of an ASCII text occupies in its UTF-8 form.
pub open spec fn ascii_bytes_of(cs: Seq<char>) -> Seq<u8> {
    Seq::new(cs.len(), |i: int| cs[i] as u8)
}

/// For ASCII text the UTF-8 bytes are exactly one byte per character, they
/// are valid UTF-8, and they decode back to the text.
pub proof fn lemma_ascii_roundtrip(cs: Seq<char>)
    requires
        is_ascii_chars(cs),
    ensures
        encode_utf8(cs) == ascii_bytes_of(cs),
        valid_utf8(ascii_bytes_of(cs)),
        decode_utf8(ascii_bytes_of(cs)) == cs,
{
    is_ascii_chars_encode_utf8(cs);
    assert(encode_utf8(cs) =~= ascii_bytes_of(cs));
    encode_utf8_valid_utf8(cs);
    encode_utf8_decode_utf8(cs);
}

/// Builds the string a sequence of ASCII bytes spells.
pub(crate) fn ascii_to_string(v: Vec<u8>, Ghost(cs): Ghost<Seq<char>>) -> (r: String)
    requires
        is_ascii_chars(cs),
        v@ == ascii_bytes_of(cs),
    ensures
        r@ == cs,
{
    proof {
        lemma_ascii_roundtrip(cs);
    }
    match utf8_to_string(v) {
        Some(s) => {
            proof {
                encode_utf8_decode_utf8(s@);
            }
            s
        },
        None => {
            proof {
                assert(false);
            }
            String::new()
        },
    }
}

} // verus!
