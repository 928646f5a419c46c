//! Content checksums: SHA-256 through an external implementation, rendered
//! and compared as lowercase hex.

use vstd::prelude::*;
use sha2::Digest;
use crate::magnet::{to_hex, spec_to_hex};
use crate::strutil::{ascii_lower, spec_lower, str_eq};

verus! {

/// The SHA-256 digest of a byte string; computed only by the external
/// implementation.
pub uninterp spec fn spec_sha256(data: Seq<u8>) -> Seq<u8>;

/// Relies on `sha2::Sha256`: the digest depends on the input alone and is
/// 32 bytes long.
#[verifier::external_body]
pub fn sha256_digest(data: &[u8]) -> (r: Vec<u8>)
    ensures
        r@ == spec_sha256(data@),
        r@.len() == 32,
{
    let mut hasher = sha2::Sha256::new();
    hasher.update(data);
    hasher.finalize().to_vec()
}

/// The SHA-256 digest of the data as 64 lowercase hex characters.
pub fn sha256_hex(data: &[u8]) -> (r: String)
    ensures
        r@ == spec_to_hex(spec_sha256(data@)),
{
    let digest = sha256_digest(data);
    to_hex(&digest)
}

/// Whether the data's SHA-256 digest matches the expected hex string,
/// compared case-insensitively (ASCII).
pub fn checksum_matches(data: &[u8], expected: &str) -> (r: bool)
    ensures
        r == (spec_to_hex(spec_sha256(data@)) == spec_lower(expected@)),
{
    let actual = sha256_hex(data);
    let want = ascii_lower(expected);
    str_eq(actual.as_str(), want.as_str())
}

} // verus!
