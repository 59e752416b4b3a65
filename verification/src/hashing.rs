//! Content checksums: SHA-256 of a byte string, rendered as lowercase hex.
//! The digest itself is computed by an outside crate; everything that reads
//! or compares checksums is verified against the named result.

use vstd::prelude::*;

verus! {

use crate::types::{is_checksum, is_hex_char};

/// The lowercase hex SHA-256 of a byte string. A digest is a function of
/// the bytes alone, so the result carries a name rather than a definition.
pub uninterp spec fn sha256_hex(bytes: Seq<u8>) -> Seq<char>;

/// Relies on sha2's `Sha256::digest` (32 output bytes, a function of the
/// input alone) and on `hex::encode` (two lowercase hex digits per byte).
#[verifier::external_body]
pub fn compute_checksum(content: &[u8]) -> (r: String)
    ensures
        r@ == sha256_hex(content@),
        is_checksum(r@),
{
    hex::encode(<sha2::Sha256 as sha2::Digest>::digest(content))
}

/// Whether `bytes` hash to exactly the checksum `expected`.
pub fn bytes_match_checksum(content: &[u8], expected: &str) -> (r: bool)
    ensures
        r == (sha256_hex(content@) == expected@),
{
    let c = compute_checksum(content);
    crate::text::str_eq(c.as_str(), expected)
}

/// Whether `s` is exactly 64 lowercase hex characters: the shape of a
/// SHA-256 checksum.
pub fn is_sha256_hex(s: &str) -> (r: bool)
    ensures
        r == is_checksum(s@),
{
    let n = s.unicode_len();
    if n != 64 {
        return false;
    }
    let mut i: usize = 0;
    while i < n
        invariant
            n == s@.len(),
            n == 64,
            i <= n,
            forall|k: int| 0 <= k < i ==> is_hex_char(#[trigger] s@[k]),
        decreases n - i,
    {
        let c = s.get_char(i);
        if !(('0' <= c && c <= '9') || ('a' <= c && c <= 'f')) {
            return false;
        }
        i = i + 1;
    }
    true
}

} // verus!
