//! SHA-256, taken from the `sha2` crate.

use sha2::Digest;
use vstd::prelude::*;

verus! {

/// The SHA-256 digest of `data`, as the `sha2` crate computes it.
pub uninterp spec fn sha256(data: Seq<u8>) -> Seq<u8>;

/// Calls `sha2::Sha256::digest`, the one-shot form of the hasher.
///
/// Trusted, not proved: the digest is a function of the input bytes alone.
#[verifier::external_body]
pub(crate) fn sha256_digest(data: &[u8]) -> (out: Vec<u8>)
    ensures
        out@ == sha256(data@),
{
    sha2::Sha256::digest(data).to_vec()
}

} // verus!
