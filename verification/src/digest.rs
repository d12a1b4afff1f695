//! SHA-256 digests, computed by the NEAR SDK.

use vstd::prelude::*;

verus! {

/// A 32-byte digest.
pub type CryptoHash = [u8; 32];

/// The SHA-256 digest of a byte string, as `near_sdk::env::sha256_array`
/// computes it.
pub uninterp spec fn sha256_digest(bytes: Seq<u8>) -> Seq<u8>;

/// Calls `near_sdk::env::sha256_array`.
///
/// Trusted: the result is the SHA-256 digest of `bytes`, a function of the
/// bytes alone. Off chain the SDK computes it in process; nothing else of the
/// digest is claimed here.
#[verifier::external_body]
pub(crate) fn sha256(bytes: &[u8]) -> (digest: CryptoHash)
    ensures
        digest@ == sha256_digest(bytes@),
{
    near_sdk::env::sha256_array(bytes)
}

} // verus!
