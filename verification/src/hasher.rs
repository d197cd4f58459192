//! The hash primitive: SHA-256 digests of concatenated byte sequences.

use vstd::prelude::*;
use sha2::{Digest, Sha256};

verus! {

broadcast use vstd::array::axiom_spec_array_as_slice;

/// The SHA-256 digest of a byte sequence. The library relies only on the
/// digest being a function of the input bytes; what the digest is stays
/// unstated.
pub uninterp spec fn sha256_of(bytes: Seq<u8>) -> Seq<u8>;

/// Computes the SHA-256 hash of the given data sequences, concatenated in
/// order, and returns the digest as raw bytes.
///
/// Relies on sha2's `Sha256` (`new`, `update`, `finalize`): feeding the
/// parts one by one digests their concatenation, and the digest depends on
/// those bytes alone.
#[verifier::external_body]
pub fn hash_data_sequences(datas: &[&[u8]]) -> (digest: [u8; 32])
    ensures
        digest@ == sha256_of(datas.deep_view().flatten()),
{
    let mut sha256 = Sha256::new();
    for data in datas.iter() {
        sha256.update(data);
    }
    sha256.finalize().into()
}

/// The digest of a single record: the hash a leaf node carries.
pub fn hash_leaf(data: &[u8]) -> (digest: [u8; 32])
    ensures
        digest@ == sha256_of(data@),
{
    let parts: [&[u8]; 1] = [data];
    let parts_slice = vstd::array::array_as_slice(&parts);
    let digest = hash_data_sequences(parts_slice);
    proof {
        assert(parts_slice.deep_view() =~~= seq![data@]);
        assert(Seq::<Seq<u8>>::empty().flatten() =~= Seq::<u8>::empty());
        assert(seq![data@].drop_first() =~= Seq::<Seq<u8>>::empty());
        assert(seq![data@].flatten() =~= data@);
    }
    digest
}

/// The digest of two child hashes joined left-then-right: the hash the
/// parent node carries.
pub fn hash_pair(left: &[u8; 32], right: &[u8; 32]) -> (digest: [u8; 32])
    ensures
        digest@ == sha256_of(left@ + right@),
{
    let parts: [&[u8]; 2] = [
        vstd::array::array_as_slice(left),
        vstd::array::array_as_slice(right),
    ];
    let parts_slice = vstd::array::array_as_slice(&parts);
    let digest = hash_data_sequences(parts_slice);
    proof {
        assert(parts_slice.deep_view() =~~= seq![left@, right@]);
        assert(Seq::<Seq<u8>>::empty().flatten() =~= Seq::<u8>::empty());
        assert(seq![right@].drop_first() =~= Seq::<Seq<u8>>::empty());
        assert(seq![right@].flatten() =~= right@);
        assert(seq![left@, right@].drop_first() =~= seq![right@]);
        assert(seq![left@, right@].flatten() =~= left@ + right@);
    }
    digest
}

} // verus!
