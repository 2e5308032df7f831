//! The content identity of a message: an MD5 digest of its hashable
//! rendering, spelled in lowercase hex.

use md5::Digest;
use md5::Md5;
use vstd::prelude::*;

verus! {

/// The MD5 digest of a byte sequence. A digest has no short arithmetic
/// description, so it is left uninterpreted here; [`md5_of`] computes it.
pub uninterp spec fn md5_digest(bytes: Seq<u8>) -> Seq<u8>;

/// The lowercase hex character for a value below sixteen.
pub open spec fn hex_digit_char(n: int) -> char {
    if n < 10 {
        (48 + n) as char
    } else {
        (87 + n) as char
    }
}

/// The lowercase hex spelling of a byte sequence: two characters for each
/// byte, high nibble first.
pub open spec fn hex_chars(bytes: Seq<u8>) -> Seq<char>
    decreases bytes.len(),
{
    if bytes.len() == 0 {
        Seq::empty()
    } else {
        seq![
            hex_digit_char(bytes[0] as int / 16),
            hex_digit_char(bytes[0] as int % 16),
        ] + hex_chars(bytes.drop_first())
    }
}

/// Relies on `md5::Md5::digest` (the `md-5` crate): the digest is sixteen
/// bytes and depends on the input bytes alone.
#[verifier::external_body]
pub fn md5_of(data: &[u8]) -> (r: Vec<u8>)
    ensures
        r@ == md5_digest(data@),
        r@.len() == 16,
{
    Md5::digest(data).to_vec()
}

/// Relies on `hex::encode`: the result spells each input byte as two
/// lowercase hex digits, high nibble first.
#[verifier::external_body]
pub fn hex_encode(data: &[u8]) -> (r: String)
    ensures
        r@ == hex_chars(data@),
{
    hex::encode(data)
}

} // verus!
