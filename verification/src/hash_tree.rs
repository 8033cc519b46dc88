//! Pruned hash trees: the witnesses that let a client recompute the root
//! hash from one leaf digest plus sibling hashes.
//!
//! Every node kind is hashed under its own domain-separation tag, so a leaf
//! can never collide with a fork and the combination rule is unambiguous.

use vstd::prelude::*;
use crate::digest::{sha256, sha256_of};
use vstd::bytes::{spec_u64_to_le_bytes, u64_to_le_bytes};

verus! {

/// A pruned view of the certification tree. `Pruned` stands for a subtree
/// reduced to its hash; `Leaf` carries one key and its content digest.
pub enum HashTree {
    Empty,
    Pruned(Vec<u8>),
    Leaf { key: Vec<u8>, digest: Vec<u8> },
    Fork(Box<HashTree>, Box<HashTree>),
}

/// Root hash of a tree with no entries: the hash of the bare empty tag.
pub open spec fn spec_empty_hash() -> Seq<u8> {
    sha256_of(seq![0u8])
}

/// Hash of a leaf: tag, length-framed key, then the 32-byte content digest.
pub open spec fn spec_leaf_hash(key: Seq<u8>, digest: Seq<u8>) -> Seq<u8> {
    sha256_of(seq![1u8] + spec_u64_to_le_bytes(key.len() as u64) + key + digest)
}

/// Hash of an internal node from the hashes of its two subtrees.
pub open spec fn spec_fork_hash(left: Seq<u8>, right: Seq<u8>) -> Seq<u8> {
    sha256_of(seq![2u8] + left + right)
}

/// The root hash that a pruned tree stands for.
pub open spec fn reconstruct(t: HashTree) -> Seq<u8>
    decreases t,
{
    match t {
        HashTree::Empty => spec_empty_hash(),
        HashTree::Pruned(h) => h@,
        HashTree::Leaf { key, digest } => spec_leaf_hash(key@, digest@),
        HashTree::Fork(l, r) => spec_fork_hash(reconstruct(*l), reconstruct(*r)),
    }
}

/// Whether the pruned tree shows `key` with content digest `digest` in the clear.
pub open spec fn contains_leaf(t: HashTree, key: Seq<u8>, digest: Seq<u8>) -> bool
    decreases t,
{
    match t {
        HashTree::Leaf { key: k, digest: d } => k@ == key && d@ == digest,
        HashTree::Fork(l, r) => contains_leaf(*l, key, digest) || contains_leaf(
            *r,
            key,
            digest,
        ),
        _ => false,
    }
}

/// Serialized form of a tree with no entries: its bare tag.
pub open spec fn spec_empty_bytes() -> Seq<u8> {
    seq![0u8]
}

/// Serialized form of a pruned node: tag and length-framed hash.
pub open spec fn spec_pruned_bytes(h: Seq<u8>) -> Seq<u8> {
    seq![1u8] + spec_u64_to_le_bytes(h.len() as u64) + h
}

/// Serialized form of a leaf: tag, length-framed key, length-framed digest.
pub open spec fn spec_leaf_bytes(key: Seq<u8>, digest: Seq<u8>) -> Seq<u8> {
    seq![2u8] + spec_u64_to_le_bytes(key.len() as u64) + key + spec_u64_to_le_bytes(
        digest.len() as u64,
    ) + digest
}

/// Canonical serialization of a pruned tree: a tag byte per node, with
/// every variable-length field length-framed. A pure function of the tree,
/// so identical trees always serialize identically.
pub open spec fn spec_encode_tree(t: HashTree) -> Seq<u8>
    decreases t,
{
    match t {
        HashTree::Empty => spec_empty_bytes(),
        HashTree::Pruned(h) => spec_pruned_bytes(h@),
        HashTree::Leaf { key, digest } => spec_leaf_bytes(key@, digest@),
        HashTree::Fork(l, r) => seq![3u8] + spec_encode_tree(*l) + spec_encode_tree(*r),
    }
}

/// Computes the root hash of a tree with no entries.
pub fn empty_hash() -> (r: Vec<u8>)
    ensures
        r@ == spec_empty_hash(),
        r@.len() == 32,
{
    let tag: Vec<u8> = vec![0u8];
    proof {
        assert(tag@ =~= seq![0u8]);
    }
    sha256(tag.as_slice())
}

/// Computes the hash of one leaf.
pub fn leaf_hash(key: &Vec<u8>, digest: &Vec<u8>) -> (r: Vec<u8>)
    ensures
        r@ == spec_leaf_hash(key@, digest@),
        r@.len() == 32,
{
    let mut buf: Vec<u8> = vec![1u8];
    let mut len8 = u64_to_le_bytes(key.len() as u64);
    buf.append(&mut len8);
    buf.extend_from_slice(key.as_slice());
    buf.extend_from_slice(digest.as_slice());
    proof {
        assert(buf@ =~= seq![1u8] + spec_u64_to_le_bytes(key@.len() as u64) + key@ + digest@);
    }
    sha256(buf.as_slice())
}

/// Computes the hash of an internal node from its two subtree hashes.
pub fn fork_hash(left: &Vec<u8>, right: &Vec<u8>) -> (r: Vec<u8>)
    ensures
        r@ == spec_fork_hash(left@, right@),
        r@.len() == 32,
{
    let mut buf: Vec<u8> = vec![2u8];
    buf.extend_from_slice(left.as_slice());
    buf.extend_from_slice(right.as_slice());
    proof {
        assert(buf@ =~= seq![2u8] + left@ + right@);
    }
    sha256(buf.as_slice())
}

/// Recomputes the root hash that a pruned tree stands for.
pub fn reconstruct_root(t: &HashTree) -> (r: Vec<u8>)
    ensures
        r@ == reconstruct(*t),
    decreases *t,
{
    match t {
        HashTree::Empty => empty_hash(),
        HashTree::Pruned(h) => h.clone(),
        HashTree::Leaf { key, digest } => leaf_hash(key, digest),
        HashTree::Fork(l, r) => {
            let lh = reconstruct_root(l);
            let rh = reconstruct_root(r);
            fork_hash(&lh, &rh)
        },
    }
}

/// Decides whether the pruned tree shows `key` with digest `digest`.
pub fn has_leaf(t: &HashTree, key: &Vec<u8>, digest: &Vec<u8>) -> (r: bool)
    ensures
        r == contains_leaf(*t, key@, digest@),
    decreases *t,
{
    match t {
        HashTree::Leaf { key: k, digest: d } => {
            crate::order::bytes_eq(k, key) && crate::order::bytes_eq(d, digest)
        },
        HashTree::Fork(l, r) => has_leaf(l, key, digest) || has_leaf(r, key, digest),
        _ => false,
    }
}

/// Serializes a pruned tree into its canonical byte form.
pub fn encode_tree(t: &HashTree) -> (r: Vec<u8>)
    ensures
        r@ == spec_encode_tree(*t),
    decreases *t,
{
    match t {
        HashTree::Empty => {
            let out: Vec<u8> = vec![0u8];
            proof {
                assert(out@ =~= seq![0u8]);
            }
            out
        },
        HashTree::Pruned(h) => {
            let mut out: Vec<u8> = vec![1u8];
            let mut len8 = u64_to_le_bytes(h.len() as u64);
            out.append(&mut len8);
            out.extend_from_slice(h.as_slice());
            proof {
                assert(out@ =~= seq![1u8] + spec_u64_to_le_bytes(h@.len() as u64) + h@);
            }
            out
        },
        HashTree::Leaf { key, digest } => {
            let mut out: Vec<u8> = vec![2u8];
            let mut klen8 = u64_to_le_bytes(key.len() as u64);
            out.append(&mut klen8);
            out.extend_from_slice(key.as_slice());
            let mut dlen8 = u64_to_le_bytes(digest.len() as u64);
            out.append(&mut dlen8);
            out.extend_from_slice(digest.as_slice());
            proof {
                assert(out@ =~= seq![2u8] + spec_u64_to_le_bytes(key@.len() as u64) + key@
                    + spec_u64_to_le_bytes(digest@.len() as u64) + digest@);
            }
            out
        },
        HashTree::Fork(l, r) => {
            let mut out: Vec<u8> = vec![3u8];
            let mut lbytes = encode_tree(l);
            out.append(&mut lbytes);
            let mut rbytes = encode_tree(r);
            out.append(&mut rbytes);
            proof {
                assert(out@ =~= seq![3u8] + spec_encode_tree(**l) + spec_encode_tree(**r));
            }
            out
        },
    }
}

} // verus!
