//! Content hashing for change detection.

use vstd::prelude::*;

verus! {

/// Hex digest that blake3 assigns to a byte sequence.
pub uninterp spec fn blake3_hex_of(bytes: Seq<u8>) -> Seq<char>;

/// Relies on `blake3::hash` and `blake3::Hash::to_hex`: the digest is a pure
/// function of the input bytes, rendered as the 64-character hexadecimal
/// form of the 32-byte hash.
#[verifier::external_body]
pub(crate) fn content_hash_hex(bytes: &[u8]) -> (r: String)
    ensures
        r@ == blake3_hex_of(bytes@),
        r@.len() == 64,
{
    blake3::hash(bytes).to_hex().to_string()
}

} // verus!
