//! The hash that names functions and transactions.

use vstd::prelude::*;

verus! {

/// The Keccak-256 digest of a byte string: 32 bytes.
pub uninterp spec fn keccak256_of(data: Seq<u8>) -> Seq<u8>;

/// `alloy::primitives::keccak256`: the Keccak-256 digest of `data`. The
/// digest depends on the bytes of `data` alone.
#[verifier::external_body]
pub(crate) fn keccak256(data: &[u8]) -> (digest: [u8; 32])
    ensures
        digest@ == keccak256_of(data@),
{
    alloy::primitives::keccak256(data).0
}

} // verus!
