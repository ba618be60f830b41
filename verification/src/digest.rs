//! The digest that ties what was received to what was offered.
use vstd::prelude::*;

verus! {

/// The SHA-256 digest that the sha2 crate computes over `bytes`.
pub uninterp spec fn sha256_of(bytes: Seq<u8>) -> Seq<u8>;

/// Calls sha2's `Sha256::digest`. Taken on trust: the digest depends on the
/// bytes alone.
#[verifier::external_body]
fn sha256_digest(bytes: &[u8]) -> (digest: [u8; 32])
    ensures
        digest@ == sha256_of(bytes@),
{
    <sha2::Sha256 as sha2::Digest>::digest(bytes).into()
}

/// The SHA-256 digest of `bytes`.
pub fn sha256(bytes: &[u8]) -> (digest: [u8; 32])
    ensures
        digest@ == sha256_of(bytes@),
{
    sha256_digest(bytes)
}

} // verus!
