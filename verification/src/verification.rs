//! Verification of Merkle proofs against a known root hash.

use vstd::prelude::*;
use crate::hasher::hash_pair;
use crate::merkle_proof::MerkleProof;
use crate::model::recompute_root;

verus! {

/// Compares two digests byte for byte.
fn digests_equal(a: &[u8; 32], b: &[u8; 32]) -> (eq: bool)
    ensures
        eq == (a@ == b@),
{
    let mut i: usize = 0;
    while i < 32
        invariant
            i <= 32,
            forall|j: int| 0 <= j < i ==> a@[j] == b@[j],
        decreases 32 - i,
    {
        if a[i] != b[i] {
            return false;
        }
        i += 1;
    }
    proof {
        assert(a@ =~= b@);
    }
    true
}

/// Checks Merkle proofs against one known root hash. The verifier never
/// sees the tree; the root hash alone commits to the record set.
pub struct Verifier {
    /// The root hash proofs are verified against.
    pub root_hash: [u8; 32],
}

impl Verifier {
    pub fn new(root_hash: [u8; 32]) -> (v: Self)
        ensures
            v.root_hash == root_hash,
    {
        Verifier { root_hash }
    }

    /// Verifies a Merkle proof against the stored root hash.
    ///
    /// The authentication path is consumed from its last element to its
    /// first (leaf to root); at each step the low bit of the leaf index
    /// says on which side the sibling stood, and the pair is rehashed.
    /// Returns `true` exactly when the recomputed root equals the stored
    /// one. Any inconsistency in the proof — wrong hashes, a truncated
    /// path, a foreign index — surfaces only as `false`, never as an
    /// error or a panic.
    pub fn verify_proof(&self, merkle_proof: &MerkleProof) -> (valid: bool)
        ensures
            valid == (recompute_root(
                merkle_proof.leaf_index as nat,
                merkle_proof.leaf_hash@,
                merkle_proof.path(),
            ) == self.root_hash@),
    {
        let mut current: [u8; 32] = merkle_proof.leaf_hash;
        let mut index: usize = merkle_proof.leaf_index;
        let total = merkle_proof.authentication_path.len();
        proof {
            assert(merkle_proof.path().take(total as int) =~= merkle_proof.path());
        }
        let mut step: usize = 0;
        while step < total
            invariant
                step <= total,
                total == merkle_proof.authentication_path@.len(),
                recompute_root(
                    merkle_proof.leaf_index as nat,
                    merkle_proof.leaf_hash@,
                    merkle_proof.path(),
                ) == recompute_root(
                    index as nat,
                    current@,
                    merkle_proof.path().take((total - step) as int),
                ),
            decreases total - step,
        {
            let sibling = merkle_proof.authentication_path[total - 1 - step];
            let ghost prefix = merkle_proof.path().take((total - step) as int);
            proof {
                assert(prefix.last() == merkle_proof.path()[total - 1 - step]);
                assert(prefix.last() == sibling@);
                assert(prefix.drop_last() =~= merkle_proof.path().take((total - step - 1) as int));
            }
            let joined = if index % 2 == 1 {
                hash_pair(&sibling, &current)
            } else {
                hash_pair(&current, &sibling)
            };
            current = joined;
            index = index / 2;
            step += 1;
        }
        proof {
            assert(merkle_proof.path().take(0) =~= Seq::<Seq<u8>>::empty());
        }
        digests_equal(&current, &self.root_hash)
    }
}

} // verus!
