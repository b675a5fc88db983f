//! Bytes and the text they encode.

use vstd::prelude::*;
use vstd::utf8::{decode_utf8, encode_utf8, encode_utf8_decode_utf8, encode_utf8_valid_utf8, valid_utf8};

verus! {

/// The text that `String::from_utf8_lossy` gives for `bytes`.
pub uninterp spec fn lossy(bytes: Seq<u8>) -> Seq<char>;

/// Whether `char::is_alphabetic` holds of `c`.
pub uninterp spec fn alphabetic(c: char) -> bool;

/// Whether `char::is_alphanumeric` holds of `c`.
pub uninterp spec fn alphanumeric(c: char) -> bool;

/// Whether `c` is an ASCII character.
pub open spec fn ascii(c: char) -> bool {
    (c as int) < 128
}

/// Whether `c` is an ASCII letter.
pub open spec fn ascii_letter(c: char) -> bool {
    'a' <= c <= 'z' || 'A' <= c <= 'Z'
}

/// Whether `c` is an ASCII letter or digit.
pub open spec fn ascii_alphanumeric(c: char) -> bool {
    ascii_letter(c) || '0' <= c <= '9'
}

/// Whether `c` is a letter of any script.
pub open spec fn letter(c: char) -> bool {
    if ascii(c) {
        ascii_letter(c)
    } else {
        alphabetic(c)
    }
}

/// Whether `c` is a letter or a digit of any script.
pub open spec fn letter_or_digit(c: char) -> bool {
    if ascii(c) {
        ascii_alphanumeric(c)
    } else {
        alphanumeric(c)
    }
}

/// `std::str::from_utf8`: the text that `bytes` encode, where they are valid UTF-8, and an error
/// where they are not.
#[verifier::external_body]
pub(crate) fn decode(bytes: &[u8]) -> (r: Option<String>)
    ensures
        match r {
            Some(s) => valid_utf8(bytes@) && s@ == decode_utf8(bytes@),
            None => !valid_utf8(bytes@),
        },
{
    std::str::from_utf8(bytes).ok().map(|s| s.to_string())
}

/// The text that `bytes` encode, malformed sequences replaced.
pub open spec fn loose_text(bytes: Seq<u8>) -> Seq<char> {
    if valid_utf8(bytes) {
        decode_utf8(bytes)
    } else {
        lossy(bytes)
    }
}

/// Text survives being encoded and read back.
pub proof fn lemma_text_round_trip(s: Seq<char>)
    ensures
        valid_utf8(encode_utf8(s)),
        loose_text(encode_utf8(s)) == s,
        strict_text(encode_utf8(s)) == s,
{
    encode_utf8_valid_utf8(s);
    encode_utf8_decode_utf8(s);
}

/// `String::from_utf8_lossy`: valid UTF-8 is decoded as it stands; elsewhere the result is only
/// named, since what stands for malformed sequences takes long to say.
#[verifier::external_body]
pub(crate) fn decode_lossy(bytes: &[u8]) -> (r: String)
    ensures
        r@ == (if valid_utf8(bytes@) {
            decode_utf8(bytes@)
        } else {
            lossy(bytes@)
        }),
{
    String::from_utf8_lossy(bytes).into_owned()
}

/// `char::is_alphabetic`: the Unicode property is named; of the ASCII characters exactly the
/// letters have it.
#[verifier::external_body]
pub(crate) fn is_alphabetic(c: char) -> (r: bool)
    ensures
        r == (if ascii(c) {
            ascii_letter(c)
        } else {
            alphabetic(c)
        }),
{
    c.is_alphabetic()
}

/// `char::is_alphanumeric`: the Unicode property is named; of the ASCII characters exactly the
/// letters and digits have it.
#[verifier::external_body]
pub(crate) fn is_alphanumeric(c: char) -> (r: bool)
    ensures
        r == (if ascii(c) {
            ascii_alphanumeric(c)
        } else {
            alphanumeric(c)
        }),
{
    c.is_alphanumeric()
}

/// The UTF-8 bytes of `s`.
pub fn bytes_of(s: &str) -> (r: Vec<u8>)
    ensures
        r@ == encode_utf8(s@),
{
    vstd::slice::slice_to_vec(s.as_bytes())
}

/// The text that `bytes` encode, or no text at all where they are not valid UTF-8.
pub open spec fn strict_text(bytes: Seq<u8>) -> Seq<char> {
    if valid_utf8(bytes) {
        decode_utf8(bytes)
    } else {
        seq![]
    }
}

/// The text that `bytes` encode, or no text at all where they are not valid UTF-8.
pub fn text_or_empty(bytes: &[u8]) -> (r: String)
    ensures
        r@ == strict_text(bytes@),
{
    match decode(bytes) {
        Some(s) => s,
        None => {
            let s = String::new();
            assert(s@ == Seq::<char>::empty());
            s
        },
    }
}

/// Whether `bytes` are valid UTF-8.
pub fn is_text(bytes: &[u8]) -> (r: bool)
    ensures
        r == valid_utf8(bytes@),
{
    match decode(bytes) {
        Some(_) => true,
        None => false,
    }
}

} // verus!
