//! Hashes and their text.
use sha2::Digest;
use crate::numerals::digit_char;
use crate::split::stretch;
use crate::text::{chars_of, string_of};
use vstd::prelude::*;

verus! {

/// The SHA-256 digest of bytes.
pub uninterp spec fn sha256_of(bytes: Seq<u8>) -> Seq<u8>;

/// `sha2::Sha256::digest`: the SHA-256 digest of the bytes, which depends on them
/// alone and is 32 bytes long.
#[verifier::external_body]
fn sha256(bytes: &[u8]) -> (r: Vec<u8>)
    ensures
        r@ == sha256_of(bytes@),
        r@.len() == 32,
{
    sha2::Sha256::digest(bytes).to_vec()
}

/// Bytes as text: two digits in base sixteen for each, in lower case, the higher
/// first.
pub open spec fn hex_text(bytes: Seq<u8>) -> Seq<char> {
    Seq::new(
        2 * bytes.len(),
        |i: int|
            if i % 2 == 0 {
                digit_char((bytes[i / 2] / 16) as nat)
            } else {
                digit_char((bytes[i / 2] % 16) as nat)
            },
    )
}

/// A digit in base sixteen, in lower case.
pub open spec fn is_hex_char(c: char) -> bool {
    '0' <= c <= '9' || 'a' <= c <= 'f'
}

/// `hex::encode`: two lower case hexadecimal digits for each byte, in order.
#[verifier::external_body]
fn hex_encode(bytes: &[u8]) -> (r: String)
    ensures
        r@ == hex_text(bytes@),
{
    hex::encode(bytes)
}

/// The first `n` digits of the digest of bytes.
pub open spec fn digest_text(bytes: Seq<u8>, n: int) -> Seq<char> {
    hex_text(sha256_of(bytes)).take(n)
}

/// The first `n` digits of bytes as text.
pub fn hex_prefix(bytes: &[u8], n: usize) -> (r: String)
    requires
        n <= 2 * bytes@.len(),
    ensures
        r@ == hex_text(bytes@).take(n as int),
        r@.len() == n,
{
    let text = hex_encode(bytes);
    let chars = chars_of(text.as_str());
    let head = stretch(&chars, 0, n);
    proof { assert(head@ =~= chars@.take(n as int)); }
    string_of(&head)
}

/// The first `n` digits of the digest of bytes.
pub fn short_digest(bytes: &[u8], n: usize) -> (r: String)
    requires
        n <= 64,
    ensures
        r@ == digest_text(bytes@, n as int),
        r@.len() == n,
        forall|i: int| 0 <= i < n ==> is_hex_char(#[trigger] r@[i]),
{
    hex_prefix(&sha256(bytes), n)
}

} // verus!
