//! The hash functions of the Fiat-Shamir transcript, from the `sha3` and
//! `blake3` crates.

use sha3::Digest;
use vstd::prelude::*;

verus! {

/// The Keccak-256 digest of a byte string, as the `sha3` crate computes it.
pub uninterp spec fn keccak256_digest(input: Seq<u8>) -> Seq<u8>;

/// The BLAKE3 digest of a byte string, as the `blake3` crate computes it.
pub uninterp spec fn blake3_digest(input: Seq<u8>) -> Seq<u8>;

/// `sha3`'s `Keccak256::digest`: the 32 bytes of the Keccak-256 digest.
#[verifier::external_body]
fn sha3_keccak256(input: &[u8]) -> (r: Vec<u8>)
    ensures
        r@ == keccak256_digest(input@),
        r@.len() == 32,
{
    sha3::Keccak256::digest(input).to_vec()
}

/// `blake3`'s `hash`: the 32 bytes of the BLAKE3 digest.
#[verifier::external_body]
fn blake3_hash(input: &[u8]) -> (r: Vec<u8>)
    ensures
        r@ == blake3_digest(input@),
        r@.len() == 32,
{
    blake3::hash(input).as_bytes().to_vec()
}

/// The hash function that a transcript derives its challenges with.
#[derive(Clone, Copy, PartialEq, Eq, Structural, Debug)]
pub enum HashType {
    Keccak256,
    Blake3s,
}

/// The digest of a byte string under a hash function.
pub open spec fn spec_hash(hash_type: HashType, input: Seq<u8>) -> Seq<u8> {
    match hash_type {
        HashType::Keccak256 => keccak256_digest(input),
        HashType::Blake3s => blake3_digest(input),
    }
}

/// The 32-byte digest of a byte string under a hash function.
pub fn hash(hash_type: HashType, input: &[u8]) -> (r: Vec<u8>)
    ensures
        r@ == spec_hash(hash_type, input@),
        r@.len() == 32,
{
    match hash_type {
        HashType::Keccak256 => sha3_keccak256(input),
        HashType::Blake3s => blake3_hash(input),
    }
}

} // verus!
