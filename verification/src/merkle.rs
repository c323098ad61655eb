//! The Merkle-proof verifier. A proof carries the sibling hashes from the
//! leaf up to the root and, for each level, which side the running hash sits
//! on; the verifier refolds the path with Blake2-256 over the 64-byte
//! concatenation at each level and compares the outcome with the claimed root.

use vstd::prelude::*;
use crate::hashing::{blake2_256, blake2_256_of};
use crate::bytes::{bytes32_eq, push_bytes32};

verus! {

/// One level of the refold: hash the running value beside its sibling, on the
/// side the index byte names (`0` — running value is the left child; any
/// other byte — it is the right child).
pub open spec fn merkle_step(current: Seq<u8>, sibling: Seq<u8>, index: u8) -> Seq<u8> {
    if index == 0 {
        blake2_256_of(current + sibling)
    } else {
        blake2_256_of(sibling + current)
    }
}

/// The hash obtained by refolding the whole path, leaf to root.
pub open spec fn merkle_fold(current: Seq<u8>, path: Seq<[u8; 32]>, indices: Seq<u8>) -> Seq<u8>
    decreases path.len(),
{
    if path.len() == 0 {
        current
    } else {
        merkle_fold(merkle_step(current, path[0]@, indices[0]), path.drop_first(), indices.drop_first())
    }
}

/// What it means for a proof to be valid: the two parallel sequences have the
/// same length, and refolding the leaf along them reproduces the root. A
/// length mismatch is invalid, never an error; an empty proof is valid exactly
/// when the leaf is the root itself (a single-leaf tree).
pub open spec fn merkle_proof_valid(
    leaf: Seq<u8>,
    path: Seq<[u8; 32]>,
    indices: Seq<u8>,
    root: Seq<u8>,
) -> bool {
    &&& path.len() == indices.len()
    &&& merkle_fold(leaf, path, indices) == root
}

/// Verifies a Merkle proof: returns exactly whether refolding `leaf` along
/// `proof_path` and `proof_indices` reproduces `root`.
pub fn verify_merkle_proof(
    leaf: &[u8; 32],
    proof_path: &Vec<[u8; 32]>,
    proof_indices: &Vec<u8>,
    root: &[u8; 32],
) -> (r: bool)
    ensures
        r == merkle_proof_valid(leaf@, proof_path@, proof_indices@, root@),
{
    if proof_path.len() != proof_indices.len() {
        return false;
    }
    let n = proof_path.len();
    let mut current: [u8; 32] = *leaf;
    let mut k: usize = 0;
    proof {
        assert(proof_path@.skip(0) =~= proof_path@);
        assert(proof_indices@.skip(0) =~= proof_indices@);
    }
    while k < n
        invariant
            k <= n,
            n == proof_path@.len(),
            n == proof_indices@.len(),
            merkle_fold(current@, proof_path@.skip(k as int), proof_indices@.skip(k as int))
                == merkle_fold(leaf@, proof_path@, proof_indices@),
        decreases n - k,
    {
        let ghost rest_path = proof_path@.skip(k as int);
        let ghost rest_indices = proof_indices@.skip(k as int);
        let ghost prev = current@;
        let sibling: [u8; 32] = proof_path[k];
        let index: u8 = proof_indices[k];
        let mut input: Vec<u8> = Vec::new();
        if index == 0 {
            push_bytes32(&mut input, &current);
            push_bytes32(&mut input, &sibling);
        } else {
            push_bytes32(&mut input, &sibling);
            push_bytes32(&mut input, &current);
        }
        proof {
            assert(rest_path[0] == proof_path@[k as int]);
            assert(rest_indices[0] == proof_indices@[k as int]);
            assert(input@ == if index == 0 { prev + sibling@ } else { sibling@ + prev });
        }
        current = blake2_256(&input);
        proof {
            assert(current@ == merkle_step(prev, rest_path[0]@, rest_indices[0]));
            assert(merkle_fold(prev, rest_path, rest_indices) == merkle_fold(
                current@,
                rest_path.drop_first(),
                rest_indices.drop_first(),
            ));
        }
        k += 1;
        proof {
            assert(rest_path.drop_first() =~= proof_path@.skip(k as int));
            assert(rest_indices.drop_first() =~= proof_indices@.skip(k as int));
        }
    }
    proof {
        assert(proof_path@.skip(n as int) =~= Seq::<[u8; 32]>::empty());
        assert(proof_indices@.skip(n as int) =~= Seq::<u8>::empty());
    }
    bytes32_eq(&current, root)
}

/// A proof whose sibling path and side indicators differ in length is never
/// valid, whatever the leaf and the root.
pub proof fn lemma_length_mismatch_never_valid(
    leaf: Seq<u8>,
    path: Seq<[u8; 32]>,
    indices: Seq<u8>,
    root: Seq<u8>,
)
    requires
        path.len() != indices.len(),
    ensures
        !merkle_proof_valid(leaf, path, indices, root),
{
}

/// Merkle verification is deterministic: its outcome is a function of the
/// leaf, the path, the index bytes and the root, and of nothing else, so two
/// verifications of equal inputs agree bit for bit.
pub proof fn lemma_merkle_verification_deterministic(
    leaf1: Seq<u8>,
    path1: Seq<[u8; 32]>,
    indices1: Seq<u8>,
    root1: Seq<u8>,
    leaf2: Seq<u8>,
    path2: Seq<[u8; 32]>,
    indices2: Seq<u8>,
    root2: Seq<u8>,
)
    requires
        leaf1 == leaf2,
        path1 == path2,
        indices1 == indices2,
        root1 == root2,
    ensures
        merkle_proof_valid(leaf1, path1, indices1, root1) == merkle_proof_valid(
            leaf2,
            path2,
            indices2,
            root2,
        ),
{
}

} // verus!
