//! A certified content store: named binary assets are kept with their
//! SHA-256 digests, every digest is aggregated into one root hash by a
//! Merkle tree over the sorted key set, and each served response carries a
//! compact witness that lets a client recompute that root.

pub mod assoc;
pub mod b64;
pub mod certification;
pub mod consts;
pub mod digest;
pub mod hash_tree;
pub mod order;
pub mod state;
pub mod tree;
pub mod types;
pub mod utils;
