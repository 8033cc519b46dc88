//! Keeps the certification tree in step with the asset store: one leaf per
//! asset that has an identity encoding, holding that encoding's digest.

use vstd::prelude::*;
use crate::assoc::{assoc_find, lemma_assoc_map_index};
use crate::consts::{enc_identity, spec_enc_identity};
use crate::digest::{sha256, sha256_of};
use crate::hash_tree::{HashTree, encode_tree, spec_encode_tree};
use crate::order::bytes_eq;
use crate::tree::{CertificationTree, entry_map, spec_root_of, spec_witness_bytes, witness_ok};
use crate::types::Asset;
use vstd::slice::slice_to_vec;

verus! {

/// The digests certified so far: a thin holder around the tree.
pub struct AssetHashes {
    pub hashes: CertificationTree,
}

impl AssetHashes {
    /// The tree's own invariant.
    pub open spec fn wf(&self) -> bool {
        self.hashes.well_formed()
    }
}

impl Default for AssetHashes {
    /// An empty digest set.
    fn default() -> (r: Self)
        ensures
            r.wf(),
            entry_map(r.hashes@) == Map::<Seq<u8>, Seq<u8>>::empty(),
    {
        AssetHashes { hashes: CertificationTree::new() }
    }
}

/// Reflects one asset's state in the tree: when the asset carries an
/// identity encoding, its digest becomes the leaf for `key`; otherwise the
/// tree is unchanged.
pub fn on_asset_change(asset_hashes: AssetHashes, key: &Vec<u8>, asset: &Asset) -> (r: AssetHashes)
    requires
        asset_hashes.wf(),
        asset.wf(),
    ensures
        r.wf(),
        entry_map(r.hashes@) == if asset@.encodings.contains_key(spec_enc_identity()) {
            entry_map(asset_hashes.hashes@).insert(
                key@,
                asset@.encodings[spec_enc_identity()].sha256,
            )
        } else {
            entry_map(asset_hashes.hashes@)
        },
{
    let mut asset_hashes = asset_hashes;
    let identity = enc_identity();
    let (found, idx) = assoc_find(&asset.encodings, &identity);
    if found {
        proof {
            lemma_assoc_map_index(asset.encodings@);
            assert(asset@.encodings.contains_pair(
                spec_enc_identity(),
                asset.encodings@[idx as int].1@,
            ));
        }
        let digest = slice_to_vec(asset.encodings[idx].1.sha256.as_slice());
        asset_hashes.hashes.update(slice_to_vec(key.as_slice()), digest);
    }
    asset_hashes
}

/// The aggregate hash over every certified (key, digest) pair.
pub fn get_root_hash(asset_hashes: &AssetHashes) -> (r: Vec<u8>)
    ensures
        r@ == spec_root_of(asset_hashes.hashes@),
        r@.len() == 32,
{
    asset_hashes.hashes.root_hash()
}

/// The serialized witness for `key`: exactly the canonical witness bytes
/// of the tree's entries and the key — a pure function of the (key,
/// digest) set held, so equal sets give byte-identical witnesses — and
/// the encoding of a pruned tree that recomputes the root and brackets
/// `key`'s position.
pub fn create_asset_witness(asset_hashes: &AssetHashes, key: &Vec<u8>) -> (r: Vec<u8>)
    requires
        asset_hashes.wf(),
    ensures
        r@ == spec_witness_bytes(asset_hashes.hashes@, key@),
        exists|t: HashTree|
            r@ == spec_encode_tree(t) && #[trigger] witness_ok(asset_hashes.hashes@, key@, t),
{
    let w = asset_hashes.hashes.witness(key);
    let bytes = encode_tree(&w);
    proof {
        assert(bytes@ == spec_encode_tree(w) && witness_ok(asset_hashes.hashes@, key@, w));
    }
    bytes
}

/// Recomputes the digest of `content` and compares it to the digest
/// certified for `key`: true exactly when `key` is certified with the
/// digest of these bytes.
pub fn verify_asset_integrity(asset_hashes: &AssetHashes, key: &Vec<u8>, content: &[u8]) -> (r:
    bool)
    requires
        asset_hashes.wf(),
    ensures
        r == (entry_map(asset_hashes.hashes@).contains_key(key@) && entry_map(
            asset_hashes.hashes@,
        )[key@] == sha256_of(content@)),
{
    match asset_hashes.hashes.get(key) {
        Some(stored) => {
            let computed = sha256(content);
            bytes_eq(&computed, stored)
        },
        None => false,
    }
}

} // verus!
