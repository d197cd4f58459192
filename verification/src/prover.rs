//! Tree construction and proof generation.
//!
//! The `Prover` builds the Merkle tree over an ordered record sequence and
//! derives an authentication path for any leaf index by walking the tree
//! along the index's bit pattern.

use vstd::prelude::*;
use rayon::iter::ParallelIterator;
use rayon::slice::ParallelSlice;
use crate::error::MerkleError;
use crate::hasher::{hash_leaf, sha256_of};
use crate::merkle_proof::MerkleProof;
use crate::model::{
    hashes_view, leaf_level, level_at, merkle_root, pad_level, parent_level, recompute_root,
    root_of, tree_height, lemma_level_at_len, lemma_level_at_unfold, lemma_next_level_len,
    lemma_tree_height_le,
};

verus! {

/// The largest record count a tree may be built over.
pub const MAX_DATA_SIZE: usize = 1048576;

/// A node of the tree: a hash, and ownership of at most two children,
/// both present or both absent. A childless node carries either a record
/// digest or, for a synthetic padding node, a copy of its left neighbour's
/// hash.
struct Node {
    hash: [u8; 32],
    left: Option<Box<Node>>,
    right: Option<Box<Node>>,
}

impl Node {
    /// The node stands at position `pos` of the padded level `k` over the
    /// given leaf hashes: it carries that level's hash at `pos`, and a
    /// real node above the bottom level owns two children standing at the
    /// matching positions one level down.
    spec fn in_level(self, k: nat, leaves: Seq<Seq<u8>>, pos: nat) -> bool
        decreases k,
    {
        let lvl = level_at(leaves, k);
        let padded = pad_level(lvl);
        &&& pos < padded.len()
        &&& self.hash@ == padded[pos as int]
        &&& (k > 0 && pos < lvl.len() ==> match (self.left, self.right) {
            (Some(l), Some(r)) => {
                &&& l.in_level((k - 1) as nat, leaves, 2 * pos)
                &&& r.in_level((k - 1) as nat, leaves, 2 * pos + 1)
            },
            _ => false,
        })
    }
}

/// Hashes the adjacent pairs of one even-sized level into the parent
/// hashes, in positional order.
///
/// Relies on rayon's `par_chunks`, `map` and `collect`: the level splits
/// into disjoint two-element chunks, each pair is hashed independently,
/// and collecting an indexed parallel iterator preserves positional
/// order, so the result does not depend on how the ambient worker pool
/// schedules the pairs.
#[verifier::external_body]
fn hash_level_pairs(level: &Vec<[u8; 32]>) -> (parents: Vec<[u8; 32]>)
    requires
        level@.len() % 2 == 0,
    ensures
        parents@.len() == level@.len() / 2,
        forall|i: int|
            0 <= i < parents@.len() ==> (#[trigger] parents@[i])@ == sha256_of(
                level@[2 * i]@ + level@[2 * i + 1]@,
            ),
{
    level
        .par_chunks(2)
        .map(|pair| crate::hasher::hash_pair(&pair[0], &pair[1]))
        .collect()
}

/// Builds the tree bottom-up: hash every record into a leaf, then
/// repeatedly pad the level to an even size and collapse adjacent pairs
/// into parents until a single node remains.
fn build_tree(records: &Vec<Vec<u8>>) -> (root: Node)
    requires
        records@.len() >= 1,
    ensures
        root.in_level(
            tree_height(records.deep_view().len()),
            leaf_level(records.deep_view()),
            0,
        ),
{
    let ghost rs = records.deep_view();
    let ghost lh = leaf_level(rs);
    let n = records.len();
    let mut current: Vec<Node> = Vec::new();
    let mut idx: usize = 0;
    while idx < n
        invariant
            idx <= n,
            n == records@.len(),
            rs == records.deep_view(),
            lh == leaf_level(rs),
            current@.len() == idx,
            forall|j: int| 0 <= j < idx ==> (#[trigger] current@[j]).in_level(0, lh, j as nat),
        decreases n - idx,
    {
        let digest = hash_leaf(records[idx].as_slice());
        current.push(Node { hash: digest, left: None, right: None });
        proof {
            assert(rs[idx as int] =~= records@[idx as int]@);
            assert(lh[idx as int] == sha256_of(rs[idx as int]));
            assert(pad_level(lh)[idx as int] == lh[idx as int]);
        }
        idx += 1;
    }
    let ghost mut k: nat = 0nat;
    while current.len() > 1
        invariant
            rs == records.deep_view(),
            lh == leaf_level(rs),
            lh.len() == records@.len(),
            lh.len() >= 1,
            current@.len() == level_at(lh, k).len(),
            current@.len() >= 1,
            forall|j: int|
                0 <= j < current@.len() ==> (#[trigger] current@[j]).in_level(k, lh, j as nat),
        decreases current@.len(),
    {
        let ghost lvl = level_at(lh, k);
        if current.len() % 2 == 1 {
            let last_idx = current.len() - 1;
            let digest = current[last_idx].hash;
            current.push(Node { hash: digest, left: None, right: None });
            proof {
                assert(pad_level(lvl) == lvl.push(lvl.last()));
                assert(current@[lvl.len() - 1].in_level(k, lh, (lvl.len() - 1) as nat));
                assert(pad_level(lvl)[lvl.len() - 1] == lvl[lvl.len() - 1]);
            }
        }
        let ghost padded = pad_level(lvl);
        proof {
            assert(current@.len() == padded.len());
            assert(forall|j: int|
                0 <= j < padded.len() ==> (#[trigger] current@[j]).in_level(k, lh, j as nat));
        }
        let mut hs: Vec<[u8; 32]> = Vec::new();
        let mut i: usize = 0;
        while i < current.len()
            invariant
                i <= current@.len(),
                hs@.len() == i,
                forall|j: int| 0 <= j < i ==> (#[trigger] hs@[j]) == current@[j].hash,
            decreases current@.len() - i,
        {
            let digest = current[i].hash;
            hs.push(digest);
            i += 1;
        }
        proof {
            assert forall|j: int| 0 <= j < padded.len() implies (#[trigger] hs@[j])@ == padded[j] by {
                assert(current@[j].in_level(k, lh, j as nat));
            };
        }
        let phs = hash_level_pairs(&hs);
        let ghost padded_nodes = current@;
        let mut rev: Vec<Node> = Vec::new();
        while current.len() > 0
            invariant
                current@.len() + rev@.len() == padded_nodes.len(),
                current@ == padded_nodes.take(current@.len() as int),
                forall|j: int|
                    0 <= j < rev@.len() ==> (#[trigger] rev@[j])
                        == padded_nodes[padded_nodes.len() - 1 - j],
            decreases current@.len(),
        {
            proof {
                assert(padded_nodes.take(current@.len() as int).drop_last() =~= padded_nodes.take(
                    current@.len() - 1,
                ));
            }
            let node = current.pop().unwrap();
            rev.push(node);
        }
        let m = phs.len();
        proof {
            lemma_level_at_unfold(lh, k);
            assert(level_at(lh, k + 1) == parent_level(padded));
        }
        let mut parents: Vec<Node> = Vec::new();
        let mut i: usize = 0;
        while i < m
            invariant
                lh.len() >= 1,
                m == phs@.len(),
                2 * m == padded_nodes.len(),
                padded == pad_level(level_at(lh, k)),
                padded.len() == padded_nodes.len(),
                level_at(lh, k + 1) == parent_level(padded),
                i <= m,
                rev@.len() == padded_nodes.len() - 2 * i,
                forall|j: int|
                    0 <= j < rev@.len() ==> (#[trigger] rev@[j])
                        == padded_nodes[padded_nodes.len() - 1 - j],
                forall|j: int|
                    0 <= j < padded_nodes.len() ==> (#[trigger] padded_nodes[j]).in_level(
                        k,
                        lh,
                        j as nat,
                    ),
                forall|j: int| 0 <= j < padded_nodes.len() ==> (#[trigger] padded_nodes[j]).hash@
                    == padded[j],
                forall|j: int|
                    0 <= j < m ==> (#[trigger] phs@[j])@ == sha256_of(padded[2 * j] + padded[2 * j + 1]),
                parents@.len() == i,
                forall|j: int|
                    0 <= j < i ==> (#[trigger] parents@[j]).in_level(k + 1, lh, j as nat),
            decreases m - i,
        {
            let left = rev.pop().unwrap();
            let right = rev.pop().unwrap();
            proof {
                assert(left == padded_nodes[2 * i]);
                assert(right == padded_nodes[2 * i + 1]);
            }
            let digest = phs[i];
            let parent = Node {
                hash: digest,
                left: Some(Box::new(left)),
                right: Some(Box::new(right)),
            };
            proof {
                let up = level_at(lh, k + 1);
                assert(up[i as int] == crate::model::pair_hash(padded[2 * i], padded[2 * i + 1]));
                assert(pad_level(up)[i as int] == up[i as int]);
                assert(parent.in_level(k + 1, lh, i as nat));
            }
            parents.push(parent);
            i += 1;
        }
        current = parents;
        proof {
            k = k + 1nat;
        }
    }
    proof {
        lemma_level_at_len(lh, k);
        assert(k == tree_height(lh.len()));
    }
    let root = current.pop().unwrap();
    proof {
        assert(root.in_level(tree_height(rs.len()), lh, 0));
    }
    root
}

/// Builds a Merkle tree once over an ordered record sequence and answers
/// root-hash and proof requests against it. The built tree is immutable:
/// any number of concurrent proof requests may read it.
pub struct Prover {
    root: Option<Box<Node>>,
    data_length: usize,
    records: Ghost<Seq<Seq<u8>>>,
}

impl Prover {
    /// The record sequence the tree was built over.
    pub closed spec fn records(self) -> Seq<Seq<u8>> {
        self.records@
    }

    /// The root hash held by the tree.
    pub closed spec fn root_hash_view(self) -> Seq<u8> {
        match self.root {
            Some(node) => node.hash@,
            None => Seq::empty(),
        }
    }

    /// A built tree: the remembered record count matches the records, the
    /// count stays within bounds, and the owned root node carries the
    /// whole committed structure.
    pub closed spec fn wf(self) -> bool {
        &&& self.data_length == self.records@.len()
        &&& 1 <= self.records@.len() <= MAX_DATA_SIZE
        &&& match self.root {
            Some(node) => node.in_level(
                tree_height(self.records@.len()),
                leaf_level(self.records@),
                0,
            ),
            None => false,
        }
    }

    /// Creates a `Prover` by building a Merkle tree over the given records.
    ///
    /// The parallelism hint is validated and recorded as a precondition of
    /// building only; pair hashing runs on the ambient worker pool, and
    /// the resulting tree is the same for every positive hint.
    pub fn new(records: &Vec<Vec<u8>>, num_threads: usize) -> (result: Result<Self, MerkleError>)
        ensures
            records@.len() == 0 ==> result == Err::<Prover, MerkleError>(MerkleError::EmptyInput),
            records@.len() > MAX_DATA_SIZE ==> result == Err::<Prover, MerkleError>(
                MerkleError::InputTooLarge,
            ),
            1 <= records@.len() <= MAX_DATA_SIZE && num_threads == 0 ==> result == Err::<
                Prover,
                MerkleError,
            >(MerkleError::InvalidParallelism),
            1 <= records@.len() <= MAX_DATA_SIZE && num_threads >= 1 ==> match result {
                Ok(prover) => {
                    &&& prover.wf()
                    &&& prover.records() == records.deep_view()
                },
                Err(_) => false,
            },
    {
        if records.len() == 0 {
            return Err(MerkleError::EmptyInput);
        }
        if records.len() > MAX_DATA_SIZE {
            return Err(MerkleError::InputTooLarge);
        }
        if num_threads == 0 {
            return Err(MerkleError::InvalidParallelism);
        }
        let root = build_tree(records);
        Ok(Prover {
            root: Some(Box::new(root)),
            data_length: records.len(),
            records: Ghost(records.deep_view()),
        })
    }

    /// Retrieves the root hash of the tree: the digest the whole record
    /// sequence commits to.
    pub fn get_root_hash(&self) -> (result: Result<[u8; 32], MerkleError>)
        requires
            self.wf(),
        ensures
            result matches Ok(digest) && digest@ == merkle_root(self.records()),
    {
        match &self.root {
            Some(node) => {
                proof {
                    lemma_level_at_len(leaf_level(self.records@), tree_height(self.records@.len()));
                }
                Ok(node.hash)
            },
            None => Err(MerkleError::RootMissing),
        }
    }

    /// Generates a Merkle proof for the given leaf index: the leaf's
    /// digest together with the sibling hashes from the tree's top level
    /// down to the leaf. Recomputing the path from the leaf upward yields
    /// exactly the tree's root hash.
    pub fn get_proof(&self, leaf_index: usize) -> (result: Result<MerkleProof, MerkleError>)
        requires
            self.wf(),
        ensures
            leaf_index >= self.records().len() ==> result == Err::<MerkleProof, MerkleError>(
                MerkleError::LeafIndexOutOfBounds,
            ),
            leaf_index < self.records().len() ==> match result {
                Ok(proof) => {
                    &&& proof.leaf_index == leaf_index
                    &&& proof.leaf_hash@ == sha256_of(self.records()[leaf_index as int])
                    &&& proof.authentication_path@.len() == tree_height(self.records().len())
                    &&& recompute_root(leaf_index as nat, proof.leaf_hash@, proof.path())
                        == merkle_root(self.records())
                },
                Err(_) => false,
            },
    {
        if leaf_index >= self.data_length {
            return Err(MerkleError::LeafIndexOutOfBounds);
        }
        let ghost rs = self.records@;
        let ghost lh = leaf_level(rs);
        let n = self.data_length;
        proof {
            lemma_tree_height_le(lh.len());
        }

        // The height: how many collapse steps take `n` leaves to one root.
        let mut height: usize = 0;
        let mut m: usize = n;
        while m > 1
            invariant
                1 <= m <= n,
                n <= MAX_DATA_SIZE,
                n == lh.len(),
                tree_height(lh.len()) <= lh.len(),
                tree_height(n as nat) == height + tree_height(m as nat),
            decreases m,
        {
            m = (m + 1) / 2;
            height = height + 1;
        }
        assert(height == tree_height(lh.len()));

        // The index's bits, lowest first, with the leaf slot each level
        // inherits: halving the slot per level keeps it inside the level.
        let mut bits: Vec<bool> = Vec::new();
        let mut rem: usize = leaf_index;
        let ghost mut rems: Seq<nat> = seq![leaf_index as nat];
        let mut t: usize = 0;
        while t < height
            invariant
                t <= height,
                height == tree_height(lh.len()),
                lh.len() >= 1,
                leaf_index < lh.len(),
                bits@.len() == t,
                rems.len() == t + 1,
                rems[0] == leaf_index as nat,
                rems[t as int] == rem as nat,
                forall|j: int| 0 <= j < t ==> (#[trigger] rems[j + 1]) == rems[j] / 2,
                forall|j: int| 0 <= j < t ==> ((#[trigger] bits@[j]) <==> rems[j] % 2 == 1),
                forall|j: int|
                    0 <= j <= t ==> (#[trigger] rems[j]) < level_at(lh, j as nat).len(),
            decreases height - t,
        {
            proof {
                lemma_level_at_len(lh, t as nat);
                lemma_level_at_unfold(lh, t as nat);
                lemma_next_level_len(level_at(lh, t as nat));
            }
            bits.push(rem % 2 == 1);
            rem = rem / 2;
            proof {
                rems = rems.push(rem as nat);
            }
            t += 1;
        }
        proof {
            lemma_level_at_len(lh, height as nat);
            assert(rems[height as int] == 0);
        }

        // Descend from the root along the bits, top bit first, collecting
        // the hash of the sibling passed by at each level.
        let root_node = self.root.as_ref().unwrap();
        let mut cur: &Node = &**root_node;
        let mut path: Vec<[u8; 32]> = Vec::new();
        let mut level: usize = height;
        let ghost mut pos: nat = rems[height as int];
        while level > 0
            invariant
                level <= height,
                height == tree_height(lh.len()),
                lh.len() >= 1,
                leaf_index < lh.len(),
                bits@.len() == height,
                rems.len() == height + 1,
                rems[0] == leaf_index as nat,
                forall|j: int| 0 <= j < height ==> (#[trigger] rems[j + 1]) == rems[j] / 2,
                forall|j: int| 0 <= j < height ==> ((#[trigger] bits@[j]) <==> rems[j] % 2 == 1),
                forall|j: int|
                    0 <= j <= height ==> (#[trigger] rems[j]) < level_at(lh, j as nat).len(),
                pos == rems[level as int],
                cur.in_level(level as nat, lh, pos),
                path@.len() == height - level,
                recompute_root(
                    pos,
                    pad_level(level_at(lh, level as nat))[pos as int],
                    hashes_view(path@),
                ) == root_of(lh),
            decreases level,
        {
            let ghost pv_old = hashes_view(path@);
            let ghost k = level as nat;
            let ghost p = pos;
            proof {
                lemma_level_at_unfold(lh, (k - 1) as nat);
            }
            let bit = bits[level - 1];
            match (&cur.left, &cur.right) {
                (Some(l), Some(r)) => {
                    let ghost sib: Seq<u8> = if bit { l.hash@ } else { r.hash@ };
                    if bit {
                        path.push(l.hash);
                        cur = &**r;
                    } else {
                        path.push(r.hash);
                        cur = &**l;
                    }
                    proof {
                        let down = level_at(lh, (k - 1) as nat);
                        let padded_down = pad_level(down);
                        assert(rems[k - 1] == 2 * p + (if bit { 1nat } else { 0nat }));
                        pos = rems[k - 1];
                        assert(l.in_level((k - 1) as nat, lh, 2 * p));
                        assert(r.in_level((k - 1) as nat, lh, 2 * p + 1));
                        assert(hashes_view(path@) =~= pv_old.push(sib));
                        assert(hashes_view(path@).drop_last() =~= pv_old);
                        assert(parent_level(padded_down)[p as int] == crate::model::pair_hash(
                            padded_down[2 * p as int],
                            padded_down[2 * p as int + 1],
                        ));
                        assert(level_at(lh, k) == parent_level(padded_down));
                        assert(pad_level(level_at(lh, k))[p as int] == level_at(lh, k)[p as int]);
                        assert(recompute_root(pos, padded_down[pos as int], hashes_view(path@))
                            == recompute_root(p, pad_level(level_at(lh, k))[p as int], pv_old));
                    }
                },
                _ => {
                    proof {
                        assert(false);
                    }
                },
            }
            level -= 1;
        }
        proof {
            assert(pos == leaf_index as nat);
            assert(cur.hash@ == pad_level(lh)[leaf_index as int]);
            assert(pad_level(lh)[leaf_index as int] == lh[leaf_index as int]);
            assert(lh[leaf_index as int] == sha256_of(rs[leaf_index as int]));
        }
        Ok(MerkleProof {
            leaf_index,
            leaf_hash: cur.hash,
            authentication_path: path,
        })
    }
}

/// Round trip: a proof that meets `get_proof`'s contract for a leaf of a
/// built tree recomputes exactly the root hash that `get_root_hash`
/// returns for that tree, so verifying it against that root succeeds.
pub proof fn lemma_round_trip(prover: Prover, merkle_proof: MerkleProof)
    requires
        prover.wf(),
        merkle_proof.leaf_index < prover.records().len(),
        merkle_proof.leaf_hash@ == sha256_of(prover.records()[merkle_proof.leaf_index as int]),
        recompute_root(merkle_proof.leaf_index as nat, merkle_proof.leaf_hash@, merkle_proof.path())
            == merkle_root(prover.records()),
    ensures
        recompute_root(merkle_proof.leaf_index as nat, merkle_proof.leaf_hash@, merkle_proof.path())
            == prover.root_hash_view(),
{
    lemma_level_at_len(leaf_level(prover.records@), tree_height(prover.records@.len()));
}

/// One record sequence determines one root hash: two built trees over the
/// same records carry the same root, whatever parallelism hints their
/// builds were given.
pub proof fn lemma_root_deterministic(first: Prover, second: Prover)
    requires
        first.wf(),
        second.wf(),
        first.records() == second.records(),
    ensures
        first.root_hash_view() == second.root_hash_view(),
        first.root_hash_view() == merkle_root(first.records()),
{
    lemma_level_at_len(leaf_level(first.records@), tree_height(first.records@.len()));
}

} // verus!
