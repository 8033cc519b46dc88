use asset_proxy::certification::create_asset_witness;
use asset_proxy::state::State;
use asset_proxy::types::{HttpRequest, StoreArg};
use base64::Engine;
use asset_proxy::utils::{u64_to_decimal, url_decode};

fn arg(key: &[u8], ct: &[u8], content: &[u8]) -> StoreArg {
    StoreArg {
        key: key.to_vec(),
        content_type: ct.to_vec(),
        content_encoding: b"identity".to_vec(),
        content: content.to_vec(),
        sha256: None,
        aliased: None,
    }
}

fn get(url: &[u8]) -> HttpRequest {
    HttpRequest {
        method: b"GET".to_vec(),
        url: url.to_vec(),
        headers: Vec::new(),
        body: Vec::new(),
    }
}

fn header_value<'a>(headers: &'a [(Vec<u8>, Vec<u8>)], name: &[u8]) -> Option<&'a Vec<u8>> {
    headers.iter().find(|(n, _)| n == &name.to_vec()).map(|(_, v)| v)
}

#[test]
fn serve_success_with_certification_headers() {
    let mut state = State::default();
    state.store(arg(b"index.html", b"text/html", b"<html></html>"), 1).unwrap();
    let cert = b"certificate bytes".to_vec();
    let r = state.handle_http_request(&get(b"/index.html"), &cert);
    assert_eq!(r.status_code, 200);
    assert_eq!(r.body, b"<html></html>".to_vec());
    assert_eq!(
        header_value(&r.headers, b"Content-Type"),
        Some(&b"text/html".to_vec())
    );
    // the body is 13 bytes, and the header states exactly the stored length
    assert_eq!(header_value(&r.headers, b"Content-Length"), Some(&b"13".to_vec()));
    assert_eq!(
        header_value(&r.headers, b"Strict-Transport-Security"),
        Some(&b"max-age=31536000; includeSubDomains".to_vec())
    );
    assert_eq!(header_value(&r.headers, b"X-Frame-Options"), Some(&b"DENY".to_vec()));
    assert_eq!(
        header_value(&r.headers, b"X-Content-Type-Options"),
        Some(&b"nosniff".to_vec())
    );
    // the certification header binds certificate and witness, both base64
    let witness = create_asset_witness(&state.asset_hashes, &b"index.html".to_vec());
    let expected = format!(
        "certificate=:{}:, tree=:{}:",
        base64::prelude::BASE64_STANDARD.encode(&cert),
        base64::prelude::BASE64_STANDARD.encode(&witness)
    );
    assert_eq!(
        header_value(&r.headers, b"IC-Certificate"),
        Some(&expected.into_bytes())
    );
    assert_eq!(
        header_value(&r.headers, b"IC-Certificate-Witness"),
        Some(&base64::prelude::BASE64_STANDARD.encode(&witness).into_bytes())
    );
}

#[test]
fn serve_missing_key_is_not_found() {
    let state = State::default();
    let r = state.handle_http_request(&get(b"/missing"), &b"cert".to_vec());
    assert_eq!(r.status_code, 404);
    assert_eq!(r.body, b"Asset not found".to_vec());
}

#[test]
fn serve_asset_without_identity_encoding_is_not_found() {
    let mut state = State::default();
    let mut a = arg(b"k", b"text/plain", b"zzz");
    a.content_encoding = b"gzip".to_vec();
    state.store(a, 1).unwrap();
    let r = state.handle_http_request(&get(b"/k"), &b"cert".to_vec());
    assert_eq!(r.status_code, 404);
    assert_eq!(r.body, b"Asset encoding not found".to_vec());
}

#[test]
fn serve_detects_corruption_and_leaves_tree_untouched() {
    let mut state = State::default();
    state.store(arg(b"k", b"text/plain", b"payload"), 1).unwrap();
    let root_before = state.asset_hashes.hashes.root_hash();
    // flip one stored byte without updating the recorded digest
    state.assets[0].1.encodings[0].1.content_chunks[0][0] ^= 1;
    let r = state.handle_http_request(&get(b"/k"), &b"cert".to_vec());
    assert_eq!(r.status_code, 500);
    assert_eq!(r.body, b"Asset integrity check failed".to_vec());
    // the certification step is skipped: the corrupt bytes travel uncertified
    assert!(r.headers.is_empty());
    assert!(header_value(&r.headers, b"IC-Certificate").is_none());
    let root_after = state.asset_hashes.hashes.root_hash();
    assert_eq!(root_before, root_after);
}

#[test]
fn serve_malformed_percent_encoding_is_rejected() {
    let mut state = State::default();
    state.store(arg(b"k", b"text/plain", b"x"), 1).unwrap();
    let r = state.handle_http_request(&get(b"/%zz"), &b"cert".to_vec());
    assert_eq!(r.status_code, 400);
    assert_eq!(r.body, b"Failed to decode path: invalid percent-encoding".to_vec());
    assert!(r.headers.is_empty());
}

#[test]
fn serve_decodes_percent_escapes_before_lookup() {
    let mut state = State::default();
    state.store(arg(b"a b", b"text/plain", b"spaced"), 1).unwrap();
    let r = state.handle_http_request(&get(b"/a%20b"), &b"cert".to_vec());
    assert_eq!(r.status_code, 200);
    assert_eq!(r.body, b"spaced".to_vec());
}

#[test]
fn url_decode_accepts_and_rejects_strictly() {
    assert_eq!(url_decode(&b"%41".to_vec()), Some(b"A".to_vec()));
    assert_eq!(url_decode(&b"plain".to_vec()), Some(b"plain".to_vec()));
    assert_eq!(url_decode(&b"".to_vec()), Some(b"".to_vec()));
    assert_eq!(url_decode(&b"a%2Fb".to_vec()), Some(b"a/b".to_vec()));
    assert_eq!(url_decode(&b"%4".to_vec()), None);
    assert_eq!(url_decode(&b"%".to_vec()), None);
    assert_eq!(url_decode(&b"%zz".to_vec()), None);
}

#[test]
fn decimal_rendering_matches_expected_digits() {
    assert_eq!(u64_to_decimal(0), b"0".to_vec());
    assert_eq!(u64_to_decimal(7), b"7".to_vec());
    assert_eq!(u64_to_decimal(31536000), b"31536000".to_vec());
    assert_eq!(u64_to_decimal(u64::MAX), b"18446744073709551615".to_vec());
}

#[test]
fn responses_ignore_method_headers_and_body() {
    let mut state = State::default();
    state.store(arg(b"k", b"text/plain", b"content"), 1).unwrap();
    let cert = b"cert".to_vec();
    let r1 = state.handle_http_request(&get(b"/k"), &cert);
    let r2 = state.handle_http_request(
        &HttpRequest {
            method: b"POST".to_vec(),
            url: b"/k".to_vec(),
            headers: vec![(b"X-Anything".to_vec(), b"ignored".to_vec())],
            body: b"ignored too".to_vec(),
        },
        &cert,
    );
    assert_eq!(r1.status_code, r2.status_code);
    assert_eq!(r1.body, r2.body);
    assert_eq!(r1.headers, r2.headers);
}

#[test]
fn not_found_response_still_carries_certification_header() {
    let mut state = State::default();
    state.store(arg(b"present", b"text/plain", b"x"), 1).unwrap();
    let r = state.handle_http_request(&get(b"/absent"), &b"cert".to_vec());
    assert_eq!(r.status_code, 404);
    assert!(header_value(&r.headers, b"IC-Certificate").is_some());
}
