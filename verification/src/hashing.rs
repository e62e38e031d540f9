//! SHA-256.

use vstd::prelude::*;

verus! {

/// The SHA-256 digest of `data`.
pub uninterp spec fn sha256(data: Seq<u8>) -> [u8; 32];

/// Calls `solana_sha256_hasher::hashv` on one slice. Claims only that the
/// digest depends on nothing but the bytes hashed.
#[verifier::external_body]
pub(crate) fn hash_bytes(data: &[u8]) -> (digest: [u8; 32])
    ensures
        digest == sha256(data@),
{
    solana_sha256_hasher::hashv(&[data]).to_bytes()
}

} // verus!
