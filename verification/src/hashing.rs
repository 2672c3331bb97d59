//! Trusted wrappers around the two hash functions the crate relies on.
//!
//! Both digests are pure functions of their input bytes; they are named by
//! uninterpreted spec functions rather than written out, and everything the
//! crate proves about hashes goes through those names.

use vstd::prelude::*;

verus! {

/// The SHA-256 digest of the concatenation of two byte strings.
pub uninterp spec fn sha256_pair_of(a: Seq<u8>, b: Seq<u8>) -> Seq<u8>;

/// The Keccak-256 digest of a byte string.
pub uninterp spec fn keccak_of(b: Seq<u8>) -> Seq<u8>;

/// Relies on sha2's `Sha256` hasher: feeding `a` and then `b` digests their
/// concatenation; the digest is 32 bytes and depends on the fed bytes alone.
#[verifier::external_body]
pub fn sha256_pair(a: &Vec<u8>, b: &Vec<u8>) -> (r: Vec<u8>)
    ensures
        r@ == sha256_pair_of(a@, b@),
        r@.len() == 32,
{
    let mut hasher: sha2::Sha256 = sha2::Digest::new();
    sha2::Digest::update(&mut hasher, a.as_slice());
    sha2::Digest::update(&mut hasher, b.as_slice());
    sha2::Digest::finalize(hasher).as_slice().to_vec()
}

/// Relies on `keccak_hash::keccak`: the Keccak-256 digest of the input,
/// 32 bytes, depending on the input bytes alone.
#[verifier::external_body]
pub fn keccak256(b: &[u8]) -> (r: Vec<u8>)
    ensures
        r@ == keccak_of(b@),
        r@.len() == 32,
{
    keccak_hash::keccak(b).0.to_vec()
}

} // verus!
