use vstd::prelude::*;

verus! {

/// The Keccak-256 digest of a byte string.
pub uninterp spec fn keccak256_of(data: Seq<u8>) -> Seq<u8>;

/// Relies on `sha3::Keccak256` through `Digest::digest`: the digest is a
/// function of the input alone, and its output type holds 32 bytes.
#[verifier::external_body]
pub(crate) fn keccak256(data: &[u8]) -> (r: Vec<u8>)
    ensures
        r@ == keccak256_of(data@),
        r@.len() == 32,
{
    <sha3::Keccak256 as sha3::Digest>::digest(data).to_vec()
}

} // verus!
