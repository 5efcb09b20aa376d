//! The cryptographic primitives the consensus rules rest on. They are not
//! proved here: each function below states what is taken on trust.

use vstd::prelude::*;
use sha3::Digest;

verus! {

/// The SHA3-256 digest of a byte string.
pub uninterp spec fn sha3_256(input: Seq<u8>) -> Seq<u8>;

/// Calls `sha3::Sha3_256::digest`. Trusted: the result is 32 bytes and is a
/// function of the input alone, named `sha3_256`.
#[verifier::external_body]
pub(crate) fn sha3_256_digest(input: &[u8]) -> (out: [u8; 32])
    ensures
        out@ == sha3_256(input@),
{
    sha3::Sha3_256::digest(input).into()
}

} // verus!
