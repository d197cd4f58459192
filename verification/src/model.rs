//! The mathematical model of the tree: the hashes at every level, the root
//! hash a record sequence commits to, the tree height, and the hash a
//! verifier recomputes from an authentication path.

use vstd::prelude::*;
use vstd::arithmetic::power2::pow2;
use crate::hasher::sha256_of;

verus! {

/// The hash of an internal node: the digest of its two child hashes,
/// left first. The order is load-bearing; verification relies on it.
pub open spec fn pair_hash(left: Seq<u8>, right: Seq<u8>) -> Seq<u8> {
    sha256_of(left + right)
}

/// The hashes at the bottom level: one digest per record, in input order.
pub open spec fn leaf_level(records: Seq<Seq<u8>>) -> Seq<Seq<u8>> {
    records.map_values(|r: Seq<u8>| sha256_of(r))
}

/// A level with an odd node count greater than one gets one synthetic
/// node appended whose hash duplicates the last real node's hash, so that
/// every node has a sibling.
pub open spec fn pad_level(level: Seq<Seq<u8>>) -> Seq<Seq<u8>> {
    if level.len() > 1 && level.len() % 2 == 1 {
        level.push(level.last())
    } else {
        level
    }
}

/// The parent level of an even-sized level: adjacent pairs, each hashed
/// left-then-right.
pub open spec fn parent_level(level: Seq<Seq<u8>>) -> Seq<Seq<u8>> {
    Seq::new(level.len() / 2, |i: int| pair_hash(level[2 * i], level[2 * i + 1]))
}

/// One collapse step: pad the level to an even size, then pair.
pub open spec fn next_level(level: Seq<Seq<u8>>) -> Seq<Seq<u8>> {
    parent_level(pad_level(level))
}

/// The hashes standing `k` collapse steps above the given leaf hashes.
pub open spec fn level_at(leaves: Seq<Seq<u8>>, k: nat) -> Seq<Seq<u8>>
    decreases k,
{
    if k == 0 {
        leaves
    } else {
        level_at(next_level(leaves), (k - 1) as nat)
    }
}

/// The root hash over a level: collapse until one node remains.
pub open spec fn root_of(level: Seq<Seq<u8>>) -> Seq<u8>
    decreases level.len(),
{
    if level.len() <= 1 {
        if level.len() == 1 {
            level[0]
        } else {
            Seq::empty()
        }
    } else {
        root_of(next_level(level))
    }
}

/// The root hash a record sequence commits to.
pub open spec fn merkle_root(records: Seq<Seq<u8>>) -> Seq<u8> {
    root_of(leaf_level(records))
}

/// The tree height: how many collapse steps take `n` leaves to a single
/// root. Equals the base-two logarithm of `n`, rounded up.
pub open spec fn tree_height(n: nat) -> nat
    decreases n,
{
    if n <= 1 {
        0
    } else {
        1 + tree_height(((n + 1) / 2) as nat)
    }
}

/// The hash a verifier recomputes from a leaf hash and an authentication
/// path. The path is consumed from its last element (the leaf's sibling)
/// upward; at each step the low bit of `index` says on which side the
/// sibling stands.
pub open spec fn recompute_root(index: nat, leaf: Seq<u8>, path: Seq<Seq<u8>>) -> Seq<u8>
    decreases path.len(),
{
    if path.len() == 0 {
        leaf
    } else {
        let sibling = path.last();
        let joined = if index % 2 == 1 {
            pair_hash(sibling, leaf)
        } else {
            pair_hash(leaf, sibling)
        };
        recompute_root(index / 2, joined, path.drop_last())
    }
}

/// Collapsing commutes with stepping: the level above level `k` is the
/// collapse of level `k`.
pub proof fn lemma_level_at_unfold(leaves: Seq<Seq<u8>>, k: nat)
    ensures
        level_at(leaves, k + 1) == next_level(level_at(leaves, k)),
    decreases k,
{
    if k == 0 {
        assert(level_at(leaves, 1) == level_at(next_level(leaves), 0));
    } else {
        lemma_level_at_unfold(next_level(leaves), (k - 1) as nat);
    }
}

/// One collapse step nearly halves a level.
pub proof fn lemma_next_level_len(level: Seq<Seq<u8>>)
    ensures
        level.len() >= 2 ==> next_level(level).len() == (level.len() + 1) / 2,
        level.len() <= 1 ==> next_level(level).len() == 0,
{
}

/// Above an empty level every level is empty.
pub proof fn lemma_level_at_of_empty(leaves: Seq<Seq<u8>>, k: nat)
    requires
        leaves.len() == 0,
    ensures
        level_at(leaves, k).len() == 0,
    decreases k,
{
    if k > 0 {
        lemma_level_at_of_empty(next_level(leaves), (k - 1) as nat);
    }
}

/// How large each level is: at least two nodes strictly below the top,
/// exactly one node at the top (and that node carries the root hash),
/// none above it.
pub proof fn lemma_level_at_len(leaves: Seq<Seq<u8>>, k: nat)
    requires
        leaves.len() >= 1,
    ensures
        k < tree_height(leaves.len()) ==> level_at(leaves, k).len() >= 2,
        k == tree_height(leaves.len()) ==> level_at(leaves, k).len() == 1
            && level_at(leaves, k)[0] == root_of(leaves),
        k > tree_height(leaves.len()) ==> level_at(leaves, k).len() == 0,
    decreases k,
{
    if k == 0 {
    } else {
        lemma_next_level_len(leaves);
        if leaves.len() == 1 {
            lemma_level_at_of_empty(next_level(leaves), (k - 1) as nat);
        } else {
            lemma_level_at_len(next_level(leaves), (k - 1) as nat);
        }
    }
}

/// The height never exceeds the leaf count.
pub proof fn lemma_tree_height_le(n: nat)
    requires
        n >= 1,
    ensures
        tree_height(n) <= n,
    decreases n,
{
    if n >= 2 {
        lemma_tree_height_le(((n + 1) / 2) as nat);
    }
}

/// The view of a vector of hash values, as a sequence of byte sequences.
pub open spec fn hashes_view(hashes: Seq<[u8; 32]>) -> Seq<Seq<u8>> {
    hashes.map_values(|h: [u8; 32]| h@)
}

/// The tree height is exactly the base-two logarithm of the leaf count,
/// rounded up: the least `h` with `n <= pow2(h)`.
pub proof fn lemma_tree_height_is_ceil_log2(n: nat)
    requires
        n >= 1,
    ensures
        n <= pow2(tree_height(n)),
        tree_height(n) >= 1 ==> pow2((tree_height(n) - 1) as nat) < n,
    decreases n,
{
    vstd::arithmetic::power2::lemma2_to64();
    if n >= 2 {
        let c = ((n + 1) / 2) as nat;
        lemma_tree_height_is_ceil_log2(c);
        vstd::arithmetic::power2::lemma_pow2_unfold(tree_height(n));
        if tree_height(c) >= 1 {
            vstd::arithmetic::power2::lemma_pow2_unfold(tree_height(c));
        }
    }
}

} // verus!
