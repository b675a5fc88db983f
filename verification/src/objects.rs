//! Object names: how content is addressed.

use vstd::prelude::*;
use vstd::utf8::encode_utf8;

use crate::hashes::{sha1_hex, sha1_text};
use crate::numbers::{decimal, format_usize};
use crate::text::{chars_of, copy_text, cut, join3};

verus! {

/// An object of the given kind: a header with the length of the body, a zero byte, the body.
pub open spec fn object_bytes(kind: Seq<char>, body: Seq<u8>) -> Seq<u8> {
    encode_utf8(kind + " "@ + decimal(body.len()) + "\0"@) + body
}

/// The name of an object.
pub open spec fn object_id(kind: Seq<char>, body: Seq<u8>) -> Seq<char> {
    sha1_text(object_bytes(kind, body))
}

/// The name of the blob that holds `data`.
pub open spec fn blob_id(data: Seq<u8>) -> Seq<char> {
    object_id("blob"@, data)
}

/// The name of an object.
pub fn object_hash(kind: &str, body: &[u8]) -> (r: String)
    ensures
        r@ == object_id(kind@, body@),
{
    let mut header = join3(kind, " ", format_usize(body.len()).as_str());
    header.append("\0");
    let mut bytes = crate::bytes::bytes_of(header.as_str());
    let mut rest = crate::text::copy_bytes(body);
    bytes.append(&mut rest);
    sha1_hex(bytes.as_slice())
}

/// The name of the blob that holds `data`.
pub fn blob_hash(data: &[u8]) -> (r: String)
    ensures
        r@ == blob_id(data@),
{
    object_hash("blob", data)
}

/// The abbreviated form of an object name: its first seven characters.
pub open spec fn short_id(hash: Seq<char>) -> Seq<char> {
    if hash.len() < 7 {
        hash
    } else {
        hash.take(7)
    }
}

/// The abbreviated form of an object name.
pub fn short(hash: &str) -> (r: String)
    ensures
        r@ == short_id(hash@),
{
    let cs = chars_of(hash);
    if cs.len() < 7 {
        copy_text(hash)
    } else {
        cut(cs.as_slice(), 0, 7)
    }
}

} // verus!
