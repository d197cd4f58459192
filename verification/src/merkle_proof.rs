//! The proof value: evidence that one record stands at one index of the
//! committed record sequence.

use vstd::prelude::*;

verus! {

/// A membership proof for a single leaf. It carries the leaf's index, the
/// leaf's digest (decoupled from the tree for transport), and the
/// authentication path: the sibling hashes from the tree's top level down
/// to the leaf's level. A proof is an immutable value, independent of the
/// tree it was derived from.
pub struct MerkleProof {
    pub leaf_index: usize,
    pub leaf_hash: [u8; 32],
    pub authentication_path: Vec<[u8; 32]>,
}

impl MerkleProof {
    /// The authentication path as a sequence of byte sequences.
    pub open spec fn path(self) -> Seq<Seq<u8>> {
        crate::model::hashes_view(self.authentication_path@)
    }
}

} // verus!
