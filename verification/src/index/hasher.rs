//! Fingerprints of files.

use vstd::prelude::*;

verus! {

/// The hexadecimal text of the BLAKE3 hash of bytes.
pub uninterp spec fn digest(data: Seq<u8>) -> Seq<char>;

/// A lower-case hexadecimal digit.
pub open spec fn is_hex(c: char) -> bool {
    '0' <= c <= '9' || 'a' <= c <= 'f'
}

/// `blake3::hash` and `Hash::to_hex`: the text depends on the bytes alone. It has two lower-case
/// hexadecimal digits for each of the hash's 32 bytes.
#[verifier::external_body]
fn blake3_hex(data: &[u8]) -> (r: String)
    ensures
        r@ == digest(data@),
        r@.len() == 64,
        forall|i: int| 0 <= i < 64 ==> is_hex(#[trigger] r@[i]),
{
    blake3::hash(data).to_hex().to_string()
}

/// Hashes a file's contents.
pub fn hash_file(data: &[u8]) -> (r: String)
    ensures
        r@ == digest(data@),
        r@.len() == 64,
        forall|i: int| 0 <= i < 64 ==> is_hex(#[trigger] r@[i]),
{
    blake3_hex(data)
}

} // verus!
