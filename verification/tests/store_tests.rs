use asset_proxy::state::State;
use asset_proxy::types::{AssetError, StoreArg};
use sha2::Digest;

fn arg(key: &[u8], ct: &[u8], enc: &[u8], content: &[u8], sha: Option<Vec<u8>>) -> StoreArg {
    StoreArg {
        key: key.to_vec(),
        content_type: ct.to_vec(),
        content_encoding: enc.to_vec(),
        content: content.to_vec(),
        sha256: sha,
        aliased: None,
    }
}

const HELLO_SHA256: [u8; 32] = [
    0x2c, 0xf2, 0x4d, 0xba, 0x5f, 0xb0, 0xa3, 0x0e, 0x26, 0xe8, 0x3b, 0x2a, 0xc5, 0xb9, 0xe2,
    0x9e, 0x1b, 0x16, 0x1e, 0x5c, 0x1f, 0xa7, 0x42, 0x5e, 0x73, 0x04, 0x33, 0x62, 0x93, 0x8b,
    0x98, 0x24,
];

#[test]
fn round_trip_store_then_retrieve() {
    let mut state = State::default();
    let r = state.store(arg(b"k", b"text/plain", b"identity", b"hello", None), 1);
    assert!(r.is_ok());
    let got = state.retrieve(&b"k".to_vec()).unwrap();
    assert_eq!(got, b"hello".to_vec());
}

#[test]
fn store_with_matching_digest_succeeds() {
    let mut state = State::default();
    let r = state.store(
        arg(b"k", b"text/plain", b"identity", b"hello", Some(HELLO_SHA256.to_vec())),
        1,
    );
    assert!(r.is_ok());
    assert_eq!(state.retrieve(&b"k".to_vec()).unwrap(), b"hello".to_vec());
}

#[test]
fn sha256_of_hello_has_known_value() {
    let d = sha2::Sha256::digest(b"hello");
    assert_eq!(d.as_slice(), &HELLO_SHA256[..]);
}

#[test]
fn integrity_mismatch_fails_and_leaves_prior_asset_unchanged() {
    let mut state = State::default();
    state
        .store(arg(b"k", b"text/plain", b"identity", b"version one", None), 1)
        .unwrap();
    let root_before = asset_proxy::certification::get_root_hash(&state.asset_hashes);
    let wrong = vec![0u8; 32];
    let r = state.store(arg(b"k", b"text/plain", b"identity", b"version two", Some(wrong)), 2);
    assert_eq!(r, Err(AssetError::IntegrityMismatch));
    assert_eq!(state.retrieve(&b"k".to_vec()).unwrap(), b"version one".to_vec());
    let root_after = asset_proxy::certification::get_root_hash(&state.asset_hashes);
    assert_eq!(root_before, root_after);
}

#[test]
fn retrieve_absent_key_is_not_found() {
    let state = State::default();
    assert_eq!(state.retrieve(&b"missing".to_vec()), Err(AssetError::NotFound));
}

#[test]
fn retrieve_without_identity_encoding_fails() {
    let mut state = State::default();
    state.store(arg(b"k", b"text/plain", b"gzip", b"compressed bytes", None), 1).unwrap();
    assert_eq!(state.retrieve(&b"k".to_vec()), Err(AssetError::EncodingNotFound));
}

#[test]
fn second_store_replaces_encoding_wholesale() {
    let mut state = State::default();
    state.store(arg(b"k", b"text/plain", b"identity", b"old", None), 1).unwrap();
    state.store(arg(b"k", b"text/html", b"identity", b"newer", None), 2).unwrap();
    assert_eq!(state.retrieve(&b"k".to_vec()).unwrap(), b"newer".to_vec());
}

#[test]
fn list_assets_is_sorted_by_key() {
    let mut state = State::default();
    state.store(arg(b"zebra", b"t", b"identity", b"1", None), 1).unwrap();
    state.store(arg(b"alpha", b"t", b"identity", b"2", None), 2).unwrap();
    state.store(arg(b"mid", b"t", b"identity", b"3", None), 3).unwrap();
    let keys = state.list_assets();
    assert_eq!(keys, vec![b"alpha".to_vec(), b"mid".to_vec(), b"zebra".to_vec()]);
}

#[test]
fn streaming_callback_always_fails_unimplemented() {
    let state = State::default();
    let token = asset_proxy::types::StreamingCallbackToken {
        key: b"k".to_vec(),
        content_encoding: b"identity".to_vec(),
        index: 0,
        sha256: None,
    };
    let r = state.handle_streaming_callback(token);
    assert!(matches!(r, Err(AssetError::Unimplemented)));
}

#[test]
fn get_headers_for_asset_describes_identity_encoding() {
    let mut state = State::default();
    state.store(arg(b"k", b"text/plain", b"identity", b"hello", None), 1).unwrap();
    let asset = &state.assets[0].1;
    let headers = asset.get_headers_for_asset(&b"identity".to_vec());
    assert_eq!(headers.len(), 5);
    assert_eq!(headers[0], (b"Content-Type".to_vec(), b"text/plain".to_vec()));
    assert_eq!(headers[1], (b"Content-Length".to_vec(), b"5".to_vec()));
    assert_eq!(
        headers[2],
        (
            b"Strict-Transport-Security".to_vec(),
            b"max-age=31536000; includeSubDomains".to_vec()
        )
    );
    assert_eq!(headers[3], (b"X-Frame-Options".to_vec(), b"DENY".to_vec()));
    assert_eq!(headers[4], (b"X-Content-Type-Options".to_vec(), b"nosniff".to_vec()));
}

#[test]
fn get_headers_for_asset_without_encoding_omits_length() {
    let mut state = State::default();
    state.store(arg(b"k", b"text/plain", b"gzip", b"x", None), 1).unwrap();
    let asset = &state.assets[0].1;
    let headers = asset.get_headers_for_asset(&b"identity".to_vec());
    assert_eq!(headers.len(), 4);
    assert_eq!(headers[0], (b"Content-Type".to_vec(), b"text/plain".to_vec()));
}
