//! The one digest of the protocol: Keccak-256.

use sha3::{Digest, Keccak256};
use vstd::prelude::*;

verus! {

/// The Keccak-256 digest of a byte string, as the `sha3` crate computes it.
pub uninterp spec fn keccak256(data: Seq<u8>) -> Seq<u8>;

/// `Keccak256` of the `sha3` crate, fed `data` in one piece: the 32 bytes of
/// the digest, a function of the bytes alone.
#[verifier::external_body]
pub(crate) fn keccak256_digest(data: &[u8]) -> (r: [u8; 32])
    ensures
        r@ == keccak256(data@),
{
    let mut hasher = Keccak256::new();
    hasher.update(data);
    hasher.finalize().into()
}

} // verus!
