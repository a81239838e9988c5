//! The cryptographic digest behind fingerprints and signatures.

use vstd::prelude::*;

verus! {

/// The SHA-256 digest of a byte string. The algorithm itself is carried out
/// by the `sha2` crate; this name stands for its result, which is a function
/// of the input bytes alone.
pub uninterp spec fn sha256_of(bytes: Seq<u8>) -> Seq<u8>;

/// Relies on `sha2::Sha256` (through the `Digest` trait: `new`, `update`,
/// `finalize`): a 32-byte digest that depends on the input bytes alone.
#[verifier::external_body]
pub(crate) fn sha256(bytes: &Vec<u8>) -> (r: Vec<u8>)
    ensures
        r@ == sha256_of(bytes@),
        r@.len() == 32,
{
    let mut hasher = <sha2::Sha256 as sha2::Digest>::new();
    sha2::Digest::update(&mut hasher, bytes.as_slice());
    let out = sha2::Digest::finalize(hasher);
    out.to_vec()
}

} // verus!
