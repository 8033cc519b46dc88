//! The service state: the asset store and the certification tree, kept in
//! lockstep — the tree certifies exactly the identity-encoding digests of
//! the stored assets at every observable point.

use vstd::prelude::*;
use crate::assoc::{
    assoc_find, assoc_map, lemma_assoc_contains_at, lemma_assoc_insert,
    lemma_assoc_replace, sorted_assoc,
};
use crate::b64::{b64_fits, base64_encode, base64_of};
use crate::certification::AssetHashes;
use crate::consts::{
    cert_header_middle, cert_header_prefix, cert_header_suffix, enc_identity, hdr_content_length,
    hdr_content_type, hdr_ic_certificate, hdr_ic_certificate_witness,
    hdr_strict_transport_security, hdr_x_content_type_options, hdr_x_frame_options,
    msg_asset_not_found, msg_decode_failed, msg_encoding_not_found, msg_integrity_failed,
    spec_cert_header_middle, spec_cert_header_prefix, spec_cert_header_suffix, spec_enc_identity,
    spec_hdr_content_length, spec_hdr_content_type, spec_hdr_ic_certificate,
    spec_hdr_ic_certificate_witness, spec_hdr_strict_transport_security,
    spec_hdr_x_content_type_options, spec_hdr_x_frame_options, spec_msg_asset_not_found,
    spec_msg_decode_failed, spec_msg_encoding_not_found, spec_msg_integrity_failed, spec_val_deny,
    spec_val_nosniff, spec_val_strict_transport_security, val_deny, val_nosniff,
    val_strict_transport_security,
};
use crate::digest::{sha256, sha256_of};
use crate::hash_tree::{HashTree, encode_tree};
use crate::order::bytes_eq;
use crate::tree::{entry_map, spec_root_of, spec_verify, spec_witness_bytes, witness_ok, TreeEntrySeq};
use crate::types::{
    Asset, AssetEncoding, AssetError, AssetView, EncodingView, HttpRequest, HttpResponse, StoreArg,
    StreamingCallbackHttpResponse, StreamingCallbackToken, concat_chunks, concat_content,
    encoding_wf, pairs_view,
};
use crate::utils::{dec_digits, percent_decode, u64_to_decimal, url_decode};
use vstd::slice::slice_to_vec;

verus! {

/// The digests the tree must certify for a given asset map: one entry per
/// asset that has an identity encoding, holding that encoding's digest.
pub open spec fn spec_certified_digests(m: Map<Seq<u8>, AssetView>) -> Map<Seq<u8>, Seq<u8>> {
    Map::new(
        |k: Seq<u8>| m.dom().contains(k) && m[k].encodings.contains_key(spec_enc_identity()),
        |k: Seq<u8>| m[k].encodings[spec_enc_identity()].sha256,
    )
}

/// The encoding a store operation writes: one chunk holding the full
/// content, its length, its digest, and the time of the write.
pub open spec fn spec_new_encoding(arg: StoreArg, time: u64) -> EncodingView {
    EncodingView {
        modified: time,
        content_chunks: seq![arg.content@],
        total_length: arg.content@.len() as int,
        certified: arg.content_encoding@ == spec_enc_identity(),
        sha256: sha256_of(arg.content@),
    }
}

/// The asset a store operation leaves at its key: metadata refreshed from
/// the argument, the named encoding replaced wholesale, everything else
/// carried over from the previous asset when one existed.
pub open spec fn spec_stored_asset(prev: Option<AssetView>, arg: StoreArg, time: u64) -> AssetView {
    AssetView {
        content_type: arg.content_type@,
        encodings: (match prev {
            Some(a) => a.encodings,
            None => Map::<Seq<u8>, EncodingView>::empty(),
        }).insert(arg.content_encoding@, spec_new_encoding(arg, time)),
        max_age: (match prev {
            Some(a) => a.max_age,
            None => None,
        }),
        headers: (match prev {
            Some(a) => a.headers,
            None => None,
        }),
        is_aliased: arg.aliased,
        allow_raw_access: (match prev {
            Some(a) => a.allow_raw_access,
            None => None,
        }),
    }
}

/// The witness for `key` as it travels in a header: base64 of the
/// canonical witness bytes — a pure function of the certified (key,
/// digest) set and the key — or empty in the out-of-memory-scale case the
/// encoder cannot size.
pub open spec fn spec_witness_b64(s: TreeEntrySeq, key: Seq<u8>) -> Seq<u8> {
    if b64_fits(spec_witness_bytes(s, key)) {
        base64_of(spec_witness_bytes(s, key))
    } else {
        Seq::empty()
    }
}

/// The value of the certification header: certificate and the canonical
/// witness for `key`, each base64, in the fixed frame — bit for bit a
/// function of the certificate, the certified set and the key.
pub open spec fn spec_cert_header_value(cert: Seq<u8>, s: TreeEntrySeq, key: Seq<u8>) -> Seq<u8> {
    spec_cert_header_prefix() + base64_of(cert) + spec_cert_header_middle() + spec_witness_b64(
        s,
        key,
    ) + spec_cert_header_suffix()
}

/// The stored bytes at `key`'s identity encoding no longer hash to the
/// digest recorded — and certified — for them.
pub open spec fn spec_corrupted(st: State, key: Seq<u8>) -> bool {
    let m = st.assets_map();
    let id = spec_enc_identity();
    &&& m.contains_key(key)
    &&& m[key].encodings.contains_key(id)
    &&& sha256_of(concat_chunks(m[key].encodings[id].content_chunks)) != m[key].encodings[id].sha256
}

/// What serving a decoded path returns, case by case: 404 with its
/// diagnostic body when the asset or its identity encoding is absent, 500
/// when the stored bytes no longer hash to the stored digest — with the
/// certification step skipped — and otherwise 200 with the full content,
/// its description, the hardening headers and a witness header.
pub open spec fn spec_build_response(st: State, path: Seq<u8>, r: HttpResponse) -> bool {
    let m = st.assets_map();
    let id = spec_enc_identity();
    &&& r.upgrade is None
    &&& r.streaming_strategy is None
    &&& if !m.contains_key(path) {
        &&& r.status_code == 404
        &&& r.body@ == spec_msg_asset_not_found()
        &&& r.headers@.len() == 0
    } else if !m[path].encodings.contains_key(id) {
        &&& r.status_code == 404
        &&& r.body@ == spec_msg_encoding_not_found()
        &&& r.headers@.len() == 0
    } else if sha256_of(concat_chunks(m[path].encodings[id].content_chunks)) != m[
        path].encodings[id].sha256 {
        &&& r.status_code == 500
        &&& r.body@ == spec_msg_integrity_failed()
        &&& r.headers@.len() == 0
    } else {
        &&& r.status_code == 200
        &&& r.body@ == concat_chunks(m[path].encodings[id].content_chunks)
        &&& pairs_view(r.headers@).len() == 6
        &&& pairs_view(r.headers@)[0] == (spec_hdr_content_type(), m[path].content_type)
        &&& pairs_view(r.headers@)[1] == (
            spec_hdr_content_length(),
            dec_digits(m[path].encodings[id].total_length),
        )
        &&& pairs_view(r.headers@)[2] == (
            spec_hdr_ic_certificate_witness(),
            spec_witness_b64(st.asset_hashes.hashes@, path),
        )
        &&& pairs_view(r.headers@)[3] == (
            spec_hdr_strict_transport_security(),
            spec_val_strict_transport_security(),
        )
        &&& pairs_view(r.headers@)[4] == (spec_hdr_x_frame_options(), spec_val_deny())
        &&& pairs_view(r.headers@)[5] == (spec_hdr_x_content_type_options(), spec_val_nosniff())
    }
}

/// What serving a full request returns for a decodable path whose content
/// passed the integrity gate: the response for that path with one header
/// appended, the certification header whose value binds the attestation
/// certificate to the canonical witness for the path, bit for bit.
pub open spec fn spec_served_response(
    st: State,
    path: Seq<u8>,
    cert: Seq<u8>,
    r: HttpResponse,
) -> bool {
    exists|core: HttpResponse|
        {
            &&& #[trigger] spec_build_response(st, path, core)
            &&& r.status_code == core.status_code
            &&& r.body@ == core.body@
            &&& r.upgrade == core.upgrade
            &&& r.streaming_strategy == core.streaming_strategy
            &&& pairs_view(r.headers@) == pairs_view(core.headers@).push(
                (
                    spec_hdr_ic_certificate(),
                    spec_cert_header_value(cert, st.asset_hashes.hashes@, path),
                ),
            )
        }
}

/// The stored key a decoded request path addresses: the path with its
/// leading slash removed.
pub open spec fn spec_path_key(p: Seq<u8>) -> Seq<u8> {
    if p.len() > 0 && p[0] == 47 {
        p.skip(1)
    } else {
        p
    }
}

/// Certification consistency at the store level: in a well-formed state,
/// every stored asset with an identity encoding has exactly that
/// encoding's digest certified in the tree — so, with the tree's own
/// witness laws, a witness for its key verifies against the root hash with
/// that digest, after every successful store that touched it.
pub proof fn lemma_stored_key_certified(st: State, k: Seq<u8>)
    requires
        st.wf(),
        st.assets_map().contains_key(k),
        st.assets_map()[k].encodings.contains_key(spec_enc_identity()),
    ensures
        entry_map(st.asset_hashes.hashes@).contains_key(k),
        entry_map(st.asset_hashes.hashes@)[k] == st.assets_map()[k].encodings[spec_enc_identity()].sha256,
{
}

/// A key with no stored asset has no leaf in the tree: with the tree's
/// exclusion law, no digest at all verifies against the root for it.
pub proof fn lemma_absent_key_not_certified(st: State, k: Seq<u8>)
    requires
        st.wf(),
        !st.assets_map().contains_key(k),
    ensures
        !entry_map(st.asset_hashes.hashes@).contains_key(k),
{
}

/// Certification consistency, end to end: in a well-formed state, any
/// witness drawn for a stored key verifies against the tree's root hash
/// with that key's stored identity digest. Since every successful store
/// leaves the state well formed, this holds after every put.
pub proof fn lemma_stored_key_verifies(st: State, k: Seq<u8>, t: HashTree)
    requires
        st.wf(),
        st.assets_map().contains_key(k),
        st.assets_map()[k].encodings.contains_key(spec_enc_identity()),
        witness_ok(st.asset_hashes.hashes@, k, t),
    ensures
        spec_verify(
            spec_root_of(st.asset_hashes.hashes@),
            k,
            st.assets_map()[k].encodings[spec_enc_identity()].sha256,
            t,
        ),
{
    lemma_stored_key_certified(st, k);
    crate::tree::lemma_witness_verifies(st.asset_hashes.hashes@, k, t);
}

/// Exclusion, end to end: for a key with no stored asset, any witness
/// drawn for it verifies with no digest at all, against any root.
pub proof fn lemma_never_stored_never_verifies(st: State, k: Seq<u8>, t: HashTree)
    requires
        st.wf(),
        !st.assets_map().contains_key(k),
        witness_ok(st.asset_hashes.hashes@, k, t),
    ensures
        forall|root: Seq<u8>, d: Seq<u8>| !spec_verify(root, k, d, t),
{
    lemma_absent_key_not_certified(st, k);
    crate::tree::lemma_absent_key_never_verifies(st.asset_hashes.hashes@, k, t);
}

/// The whole service state.
pub struct State {
    pub assets: Vec<(Vec<u8>, Asset)>,
    pub asset_hashes: AssetHashes,
}

impl State {
    /// The (key -> asset) map the store denotes.
    pub open spec fn assets_map(&self) -> Map<Seq<u8>, AssetView> {
        assoc_map(self.assets@)
    }

    /// Assets sorted by key and internally consistent, the tree well
    /// formed, and the tree's entries exactly the identity digests of the
    /// stored assets: no drift in either direction.
    pub open spec fn wf(&self) -> bool {
        &&& sorted_assoc(self.assets@)
        &&& forall|i: int| 0 <= i < self.assets@.len() ==> (#[trigger] self.assets@[i]).1.wf()
        &&& self.asset_hashes.wf()
        &&& entry_map(self.asset_hashes.hashes@) == spec_certified_digests(self.assets_map())
    }
}

impl Default for State {
    /// An empty store with an empty tree.
    fn default() -> (r: Self)
        ensures
            r.wf(),
            r.assets_map() == Map::<Seq<u8>, AssetView>::empty(),
    {
        let r = State { assets: Vec::new(), asset_hashes: AssetHashes::default() };
        proof {
            assert(r.assets_map() =~= Map::<Seq<u8>, AssetView>::empty());
            assert(entry_map(r.asset_hashes.hashes@) =~= spec_certified_digests(r.assets_map()));
        }
        r
    }
}

impl State {
    /// Returns the full content stored for `key` under its identity
    /// encoding, or says exactly why there is none.
    pub fn retrieve(&self, key: &Vec<u8>) -> (r: Result<Vec<u8>, AssetError>)
        requires
            self.wf(),
        ensures
            r is Ok <==> (self.assets_map().contains_key(key@)
                && self.assets_map()[key@].encodings.contains_key(spec_enc_identity())),
            r matches Ok(v) ==> v@ == concat_chunks(
                self.assets_map()[key@].encodings[spec_enc_identity()].content_chunks,
            ),
            r matches Err(e) ==> if self.assets_map().contains_key(key@) {
                e == AssetError::EncodingNotFound
            } else {
                e == AssetError::NotFound
            },
    {
        let (found, idx) = assoc_find(&self.assets, key);
        if !found {
            return Err(AssetError::NotFound);
        }
        proof {
            lemma_assoc_contains_at(self.assets@, idx as int);
        }
        let asset = &self.assets[idx].1;
        let identity = enc_identity();
        let (efound, eidx) = assoc_find(&asset.encodings, &identity);
        if !efound {
            return Err(AssetError::EncodingNotFound);
        }
        proof {
            lemma_assoc_contains_at(asset.encodings@, eidx as int);
        }
        Ok(concat_content(&asset.encodings[eidx].1.content_chunks))
    }

    /// Lists every stored key, in the store's sorted order.
    pub fn list_assets(&self) -> (r: Vec<Vec<u8>>)
        requires
            self.wf(),
        ensures
            r@.len() == self.assets@.len(),
            forall|i: int| 0 <= i < r@.len() ==> (#[trigger] r@[i])@ == self.assets@[i].0@,
    {
        let mut r: Vec<Vec<u8>> = Vec::new();
        let mut i: usize = 0;
        while i < self.assets.len()
            invariant
                i <= self.assets@.len(),
                r@.len() == i,
                forall|j: int| 0 <= j < i ==> (#[trigger] r@[j])@ == self.assets@[j].0@,
            decreases self.assets@.len() - i,
        {
            r.push(slice_to_vec(self.assets[i].0.as_slice()));
            i = i + 1;
        }
        r
    }

    /// Stores `arg.content` as the named encoding of the asset at
    /// `arg.key`, creating the asset if needed. When a digest is supplied
    /// and does not match the computed one, the call fails and nothing —
    /// not the asset, not the tree — changes. On success the named
    /// encoding is replaced wholesale and, for the identity encoding, the
    /// tree certifies the new digest in the same call.
    pub fn store(&mut self, arg: StoreArg, time: u64) -> (r: Result<(), AssetError>)
        requires
            old(self).wf(),
        ensures
            final(self).wf(),
            r is Err <==> (arg.sha256 matches Some(h) && h@ != sha256_of(arg.content@)),
            r is Err ==> r->Err_0 == AssetError::IntegrityMismatch && *final(self) == *old(self),
            r is Ok ==> final(self).assets_map() == old(self).assets_map().insert(
                arg.key@,
                spec_stored_asset(
                    (if old(self).assets_map().contains_key(arg.key@) {
                        Some(old(self).assets_map()[arg.key@])
                    } else {
                        None
                    }),
                    arg,
                    time,
                ),
            ),
            r is Ok ==> entry_map(final(self).asset_hashes.hashes@) == (
            if arg.content_encoding@ == spec_enc_identity() {
                entry_map(old(self).asset_hashes.hashes@).insert(arg.key@, sha256_of(arg.content@))
            } else {
                entry_map(old(self).asset_hashes.hashes@)
            }),
    {
        let digest = sha256(arg.content.as_slice());
        let mismatch = match &arg.sha256 {
            Some(expected) => !bytes_eq(&digest, expected),
            None => false,
        };
        if mismatch {
            return Err(AssetError::IntegrityMismatch);
        }
        let is_identity = bytes_eq(&arg.content_encoding, &enc_identity());
        let clen = arg.content.len();
        let key_for_tree = slice_to_vec(arg.key.as_slice());
        let digest_for_tree = slice_to_vec(digest.as_slice());

        let ghost m0 = self.assets_map();
        let ghost assets0 = self.assets@;
        let ghost tree0 = self.asset_hashes.hashes@;

        let (found, pos) = assoc_find(&self.assets, &arg.key);
        proof {
            if found {
                lemma_assoc_contains_at(assets0, pos as int);
            }
        }
        let ghost prev: Option<AssetView> = if found {
            Some(m0[arg.key@])
        } else {
            None
        };

        let mut asset: Asset = if found {
            let pair = self.assets.remove(pos);
            pair.1
        } else {
            Asset {
                content_type: Vec::new(),
                encodings: Vec::new(),
                max_age: None,
                headers: None,
                is_aliased: arg.aliased,
                allow_raw_access: None,
            }
        };
        proof {
            if found {
                assert(asset@ == m0[arg.key@]);
                assert(asset.wf());
            } else {
                assert(asset.encodings@ =~= Seq::<(Vec<u8>, AssetEncoding)>::empty());
                assert(assoc_map(asset.encodings@) =~= Map::<Seq<u8>, EncodingView>::empty());
            }
        }
        asset.content_type = arg.content_type;
        asset.is_aliased = arg.aliased;

        let mut chunks: Vec<Vec<u8>> = Vec::new();
        chunks.push(arg.content);
        let new_enc = AssetEncoding {
            modified: time,
            content_chunks: chunks,
            total_length: clen,
            certified: is_identity,
            sha256: digest,
        };
        proof {
            assert(new_enc@.content_chunks =~= seq![arg.content@]);
            assert(new_enc@ =~~= spec_new_encoding(arg, time));
            assert(encoding_wf(new_enc@)) by {
                assert(seq![arg.content@].drop_last() =~= Seq::<Seq<u8>>::empty());
                assert(seq![arg.content@].last() == arg.content@);
                assert(concat_chunks(Seq::<Seq<u8>>::empty()) == Seq::<u8>::empty());
                assert(Seq::<u8>::empty() + arg.content@ =~= arg.content@);
                assert(concat_chunks(new_enc@.content_chunks) =~= arg.content@);
            }
        }

        let ghost encs0 = asset.encodings@;
        let (efound, epos) = assoc_find(&asset.encodings, &arg.content_encoding);
        if efound {
            asset.encodings.remove(epos);
        }
        asset.encodings.insert(epos, (arg.content_encoding, new_enc));
        proof {
            if efound {
                assert(asset.encodings@ =~= encs0.update(epos as int, (arg.content_encoding,
                new_enc)));
                lemma_assoc_replace(encs0, epos as int, arg.content_encoding, new_enc);
            } else {
                assert(asset.encodings@ =~= encs0.insert(epos as int, (arg.content_encoding,
                new_enc)));
                lemma_assoc_insert(encs0, epos as int, arg.content_encoding, new_enc);
            }
            assert(asset.wf()) by {
                assert forall|i: int| 0 <= i < asset.encodings@.len() implies encoding_wf(
                    (#[trigger] asset.encodings@[i]).1@,
                ) by {
                    if efound {
                        if i != epos {
                            assert(asset.encodings@[i] == encs0[i]);
                        }
                    } else {
                        encs0.insert_ensures(epos as int, (arg.content_encoding, new_enc));
                        if i < epos {
                            assert(asset.encodings@[i] == encs0[i]);
                        } else if i > epos {
                            assert(asset.encodings@[i] == encs0[i - 1]);
                        }
                    }
                }
            }
            assert(asset@ =~~= spec_stored_asset(prev, arg, time));
        }

        self.assets.insert(pos, (arg.key, asset));
        proof {
            if found {
                assert(self.assets@ =~= assets0.update(pos as int, (arg.key, asset)));
                lemma_assoc_replace(assets0, pos as int, arg.key, asset);
            } else {
                assert(self.assets@ =~= assets0.insert(pos as int, (arg.key, asset)));
                lemma_assoc_insert(assets0, pos as int, arg.key, asset);
            }
            assert(self.assets_map() == m0.insert(arg.key@, asset@));
            assert forall|i: int| 0 <= i < self.assets@.len() implies (#[trigger] self.assets@[
                i]).1.wf() by {
                if found {
                    if i != pos {
                        assert(self.assets@[i] == assets0[i]);
                    }
                } else {
                    assets0.insert_ensures(pos as int, (arg.key, asset));
                    if i < pos {
                        assert(self.assets@[i] == assets0[i]);
                    } else if i > pos {
                        assert(self.assets@[i] == assets0[i - 1]);
                    }
                }
            }
        }

        if is_identity {
            self.asset_hashes.hashes.update(key_for_tree, digest_for_tree);
        }
        proof {
            let m1 = self.assets_map();
            let dh = sha256_of(arg.content@);
            let id = spec_enc_identity();
            if is_identity {
                assert(spec_certified_digests(m1) =~= spec_certified_digests(m0).insert(
                    arg.key@,
                    dh,
                )) by {
                    assert(m1[arg.key@].encodings.contains_key(id));
                    assert(m1[arg.key@].encodings[id].sha256 == dh);
                    assert(forall|k: Seq<u8>|
                        k != arg.key@ && m1.dom().contains(k) ==> m0.dom().contains(k) && #[trigger] m1[k]
                            == m0[k]);
                }
                assert(entry_map(self.asset_hashes.hashes@) == spec_certified_digests(m1));
            } else {
                assert(spec_certified_digests(m1) =~= spec_certified_digests(m0)) by {
                    assert(m1[arg.key@].encodings.contains_key(id) <==> (m0.dom().contains(
                        arg.key@,
                    ) && m0[arg.key@].encodings.contains_key(id)));
                    if m1[arg.key@].encodings.contains_key(id) {
                        assert(m1[arg.key@].encodings[id] == m0[arg.key@].encodings[id]);
                    }
                    assert(forall|k: Seq<u8>|
                        k != arg.key@ && m1.dom().contains(k) ==> m0.dom().contains(k) && #[trigger] m1[k]
                            == m0[k]);
                }
                assert(entry_map(self.asset_hashes.hashes@) == spec_certified_digests(m1));
            }
        }
        Ok(())
    }

    /// Serves one decoded path: looks the asset up, re-verifies its
    /// content against the stored digest, and on success returns the
    /// content with its description and a witness header.
    pub fn build_http_response(&self, path: &Vec<u8>) -> (r: HttpResponse)
        requires
            self.wf(),
        ensures
            spec_build_response(*self, path@, r),
    {
        let (found, idx) = assoc_find(&self.assets, path);
        if !found {
            return HttpResponse {
                status_code: 404,
                headers: Vec::new(),
                body: msg_asset_not_found(),
                upgrade: None,
                streaming_strategy: None,
            };
        }
        proof {
            lemma_assoc_contains_at(self.assets@, idx as int);
        }
        let asset = &self.assets[idx].1;
        let identity = enc_identity();
        let (efound, eidx) = assoc_find(&asset.encodings, &identity);
        if !efound {
            return HttpResponse {
                status_code: 404,
                headers: Vec::new(),
                body: msg_encoding_not_found(),
                upgrade: None,
                streaming_strategy: None,
            };
        }
        proof {
            lemma_assoc_contains_at(asset.encodings@, eidx as int);
        }
        let encoding = &asset.encodings[eidx].1;
        let content = concat_content(&encoding.content_chunks);
        let computed = sha256(content.as_slice());
        if !bytes_eq(&computed, &encoding.sha256) {
            return HttpResponse {
                status_code: 500,
                headers: Vec::new(),
                body: msg_integrity_failed(),
                upgrade: None,
                streaming_strategy: None,
            };
        }
        let w = self.asset_hashes.hashes.witness(path);
        let wbytes = encode_tree(&w);
        let wb64: Vec<u8> = match base64_encode(&wbytes) {
            Some(v) => v,
            None => Vec::new(),
        };
        proof {
            assert(wbytes@ == spec_witness_bytes(self.asset_hashes.hashes@, path@));
            assert(wb64@ == spec_witness_b64(self.asset_hashes.hashes@, path@));
        }
        let mut headers: Vec<(Vec<u8>, Vec<u8>)> = Vec::new();
        headers.push((hdr_content_type(), slice_to_vec(asset.content_type.as_slice())));
        headers.push((hdr_content_length(), u64_to_decimal(encoding.total_length as u64)));
        headers.push((hdr_ic_certificate_witness(), wb64));
        headers.push((hdr_strict_transport_security(), val_strict_transport_security()));
        headers.push((hdr_x_frame_options(), val_deny()));
        headers.push((hdr_x_content_type_options(), val_nosniff()));
        let r = HttpResponse {
            status_code: 200,
            headers,
            body: content,
            upgrade: None,
            streaming_strategy: None,
        };
        proof {
            assert(pairs_view(r.headers@)[2].1 == spec_witness_b64(self.asset_hashes.hashes@,
            path@));
            assert(spec_build_response(*self, path@, r));
        }
        r
    }

    /// Serves one request: percent-decodes the path (a malformed path is
    /// answered directly) and builds the response for it. When the content
    /// passed the integrity gate — and only then — the certification
    /// header binding certificate and witness is appended: a corrupted
    /// asset is never certified in its response. The state is taken by
    /// shared reference, so serving never mutates the store or the tree;
    /// in particular the root hash keeps its value on every path,
    /// including this 500 one.
    pub fn handle_http_request(&self, req: &HttpRequest, certificate: &Vec<u8>) -> (r:
        HttpResponse)
        requires
            self.wf(),
            b64_fits(certificate@),
        ensures
            percent_decode(req.url@) is None ==> (r.status_code == 400 && r.body@
                == spec_msg_decode_failed() && r.headers@.len() == 0),
            percent_decode(req.url@) matches Some(p) ==> (if spec_corrupted(
                *self,
                spec_path_key(p),
            ) {
                spec_build_response(*self, spec_path_key(p), r)
            } else {
                spec_served_response(*self, spec_path_key(p), certificate@, r)
            }),
    {
        let decoded = url_decode(&req.url);
        match decoded {
            None => HttpResponse {
                status_code: 400,
                headers: Vec::new(),
                body: msg_decode_failed(),
                upgrade: None,
                streaming_strategy: None,
            },
            Some(mut path) => {
                let ghost decoded_view = path@;
                if path.len() > 0 && path[0] == 47 {
                    path.remove(0);
                    proof {
                        assert(path@ =~= spec_path_key(decoded_view));
                    }
                }
                proof {
                    assert(path@ == spec_path_key(decoded_view));
                }
                let mut response = self.build_http_response(&path);
                if response.status_code == 500 {
                    // the integrity gate failed: the certification step is
                    // skipped, so the corrupted bytes travel uncertified
                    proof {
                        assert(spec_corrupted(*self, path@));
                    }
                    return response;
                }
                proof {
                    assert(!spec_corrupted(*self, path@));
                }
                let ghost core = response;
                let w = self.asset_hashes.hashes.witness(&path);
                let wbytes = encode_tree(&w);
                let mut wb64: Vec<u8> = match base64_encode(&wbytes) {
                    Some(v) => v,
                    None => Vec::new(),
                };
                let mut cb64: Vec<u8> = match base64_encode(certificate) {
                    Some(v) => v,
                    None => {
                        proof {
                            assert(false);
                        }
                        Vec::new()
                    },
                };
                let mut value = cert_header_prefix();
                value.append(&mut cb64);
                let mut mid = cert_header_middle();
                value.append(&mut mid);
                value.append(&mut wb64);
                let mut suffix = cert_header_suffix();
                value.append(&mut suffix);
                proof {
                    assert(wbytes@ == spec_witness_bytes(self.asset_hashes.hashes@, path@));
                    assert(value@ =~= spec_cert_header_value(certificate@, self.asset_hashes.hashes@,
                    path@));
                }
                response.headers.push((hdr_ic_certificate(), value));
                proof {
                    assert(pairs_view(response.headers@) =~= pairs_view(core.headers@).push((
                        spec_hdr_ic_certificate(),
                        spec_cert_header_value(certificate@, self.asset_hashes.hashes@, path@),
                    )));
                    assert(spec_build_response(*self, path@, core));
                    assert(spec_served_response(*self, path@, certificate@, response));
                }
                response
            },
        }
    }

    /// The streaming continuation protocol: deliberately left unimplemented;
    /// every invocation fails the same way.
    pub fn handle_streaming_callback(&self, token: StreamingCallbackToken) -> (r: Result<
        StreamingCallbackHttpResponse,
        AssetError,
    >)
        ensures
            r is Err && r->Err_0 == AssetError::Unimplemented,
    {
        let _ = token;
        Err(AssetError::Unimplemented)
    }
}

} // verus!
