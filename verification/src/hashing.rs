//! The hash primitive of the core: Blake2-256, i.e. Blake2b with a 32-byte
//! digest. Merkle verification and session-id derivation are built on it.

use vstd::prelude::*;

verus! {

/// The Blake2-256 digest of a byte sequence, as a pure mathematical function.
/// Its value on concrete inputs is given only by the outside implementation;
/// no contract in this crate says what it is, so every proof that mentions it
/// holds for an arbitrary 32-byte digest function.
pub uninterp spec fn blake2_256_of(input: Seq<u8>) -> Seq<u8>;

/// Relies on blake2's `Blake2b256` (the `Digest::digest` entry point):
/// the digest is 32 bytes long and depends on the input bytes alone.
#[verifier::external_body]
pub fn blake2_256(input: &Vec<u8>) -> (r: [u8; 32])
    ensures
        r@ == blake2_256_of(input@),
        r@.len() == 32,
{
    let digest = <blake2::Blake2b256 as blake2::Digest>::digest(input.as_slice());
    let mut out = [0u8; 32];
    let s: &mut [u8] = &mut out;
    s.copy_from_slice(digest.as_slice());
    out
}

} // verus!
