use asset_proxy::certification::{
    create_asset_witness, get_root_hash, on_asset_change, verify_asset_integrity, AssetHashes,
};
use asset_proxy::state::State;
use asset_proxy::tree::{verify, CertificationTree};
use asset_proxy::types::StoreArg;
use sha2::Digest;

fn digest_of(content: &[u8]) -> Vec<u8> {
    sha2::Sha256::digest(content).to_vec()
}

fn arg(key: &[u8], content: &[u8]) -> StoreArg {
    StoreArg {
        key: key.to_vec(),
        content_type: b"text/plain".to_vec(),
        content_encoding: b"identity".to_vec(),
        content: content.to_vec(),
        sha256: None,
        aliased: None,
    }
}

#[test]
fn certification_consistency_after_every_put() {
    let mut state = State::default();
    let contents: [(&[u8], &[u8]); 3] = [(b"a", b"one"), (b"b", b"two"), (b"c", b"three")];
    for (key, content) in contents {
        state.store(arg(key, content), 1).unwrap();
        // after every successful put, every stored key verifies
        for (k, c) in contents {
            let kv = k.to_vec();
            if state.retrieve(&kv).is_err() {
                continue;
            }
            let root = state.asset_hashes.hashes.root_hash();
            let w = state.asset_hashes.hashes.witness(&kv);
            let d = digest_of(c);
            assert!(verify(&root, &kv, &d, &w));
        }
    }
}

#[test]
fn witness_rejects_wrong_digest() {
    let mut state = State::default();
    state.store(arg(b"a", b"one"), 1).unwrap();
    state.store(arg(b"b", b"two"), 1).unwrap();
    let root = state.asset_hashes.hashes.root_hash();
    let kv = b"a".to_vec();
    let w = state.asset_hashes.hashes.witness(&kv);
    let wrong = vec![7u8; 32];
    assert!(!verify(&root, &kv, &wrong, &w));
}

#[test]
fn exclusion_proof_for_absent_key() {
    let mut state = State::default();
    state.store(arg(b"a", b"one"), 1).unwrap();
    state.store(arg(b"c", b"three"), 1).unwrap();
    let root = state.asset_hashes.hashes.root_hash();
    let absent = b"b".to_vec();
    let w = state.asset_hashes.hashes.witness(&absent);
    // the witness is producible, recomputes the root, and admits no digest
    assert!(!verify(&root, &absent, &vec![0u8; 32], &w));
    assert!(!verify(&root, &absent, &digest_of(b"one"), &w));
    assert!(!verify(&root, &absent, &digest_of(b"two"), &w));
}

#[test]
fn exclusion_proof_on_empty_tree() {
    let tree = CertificationTree::new();
    let root = tree.root_hash();
    let absent = b"anything".to_vec();
    let w = tree.witness(&absent);
    assert!(!verify(&root, &absent, &vec![0u8; 32], &w));
}

#[test]
fn root_is_independent_of_insertion_order() {
    let da = digest_of(b"one");
    let db = digest_of(b"two");
    let dc = digest_of(b"three");
    let mut t1 = CertificationTree::new();
    t1.update(b"a".to_vec(), da.clone());
    t1.update(b"b".to_vec(), db.clone());
    t1.update(b"c".to_vec(), dc.clone());
    let mut t2 = CertificationTree::new();
    t2.update(b"c".to_vec(), dc.clone());
    t2.update(b"a".to_vec(), da.clone());
    t2.update(b"b".to_vec(), db.clone());
    assert_eq!(t1.root_hash(), t2.root_hash());
    // overwriting on the way to the same final set also agrees
    let mut t3 = CertificationTree::new();
    t3.update(b"b".to_vec(), digest_of(b"stale"));
    t3.update(b"a".to_vec(), da.clone());
    t3.update(b"c".to_vec(), dc.clone());
    t3.update(b"b".to_vec(), db.clone());
    assert_eq!(t1.root_hash(), t3.root_hash());
}

#[test]
fn roots_differ_for_different_contents() {
    let mut t1 = CertificationTree::new();
    t1.update(b"a".to_vec(), digest_of(b"one"));
    let mut t2 = CertificationTree::new();
    t2.update(b"a".to_vec(), digest_of(b"two"));
    assert_ne!(t1.root_hash(), t2.root_hash());
    let empty = CertificationTree::new();
    assert_ne!(t1.root_hash(), empty.root_hash());
}

#[test]
fn on_asset_change_tracks_identity_digest() {
    let mut state = State::default();
    state.store(arg(b"k", b"payload"), 1).unwrap();
    let asset = &state.assets[0].1;
    let fresh = on_asset_change(AssetHashes::default(), &b"k".to_vec(), asset);
    assert_eq!(get_root_hash(&fresh), get_root_hash(&state.asset_hashes));
}

#[test]
fn verify_asset_integrity_matches_stored_content() {
    let mut state = State::default();
    state.store(arg(b"k", b"payload"), 1).unwrap();
    let kv = b"k".to_vec();
    assert!(verify_asset_integrity(&state.asset_hashes, &kv, b"payload"));
    assert!(!verify_asset_integrity(&state.asset_hashes, &kv, b"tampered"));
    assert!(!verify_asset_integrity(&state.asset_hashes, &b"other".to_vec(), b"payload"));
}

#[test]
fn witness_bytes_agree_across_insertion_orders() {
    let mut s1 = State::default();
    s1.store(arg(b"a", b"one"), 1).unwrap();
    s1.store(arg(b"b", b"two"), 2).unwrap();
    s1.store(arg(b"c", b"three"), 3).unwrap();
    let mut s2 = State::default();
    s2.store(arg(b"c", b"three"), 4).unwrap();
    s2.store(arg(b"b", b"stale"), 5).unwrap();
    s2.store(arg(b"a", b"one"), 6).unwrap();
    s2.store(arg(b"b", b"two"), 7).unwrap();
    for key in [&b"a"[..], b"b", b"c", b"absent"] {
        let kv = key.to_vec();
        assert_eq!(
            create_asset_witness(&s1.asset_hashes, &kv),
            create_asset_witness(&s2.asset_hashes, &kv)
        );
    }
}

#[test]
fn witness_serialization_is_deterministic() {
    let mut state = State::default();
    state.store(arg(b"a", b"one"), 1).unwrap();
    state.store(arg(b"b", b"two"), 1).unwrap();
    let w1 = create_asset_witness(&state.asset_hashes, &b"a".to_vec());
    let w2 = create_asset_witness(&state.asset_hashes, &b"a".to_vec());
    assert_eq!(w1, w2);
    assert!(!w1.is_empty());
    let w3 = create_asset_witness(&state.asset_hashes, &b"b".to_vec());
    assert_ne!(w1, w3);
}
