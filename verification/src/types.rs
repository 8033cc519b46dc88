//! The data model: assets, their encodings, store arguments, errors, and
//! the request/response types of the serving protocol.

use vstd::prelude::*;
use crate::assoc::{assoc_find, assoc_map, sorted_assoc};
use crate::consts::{
    hdr_content_length, hdr_content_type, hdr_strict_transport_security, hdr_x_content_type_options,
    hdr_x_frame_options, spec_hdr_content_length, spec_hdr_content_type,
    spec_hdr_strict_transport_security, spec_hdr_x_content_type_options, spec_hdr_x_frame_options,
    spec_val_deny, spec_val_nosniff, spec_val_strict_transport_security, val_deny, val_nosniff,
    val_strict_transport_security,
};
use crate::utils::{dec_digits, u64_to_decimal};
use vstd::slice::slice_to_vec;

verus! {

/// The ways an operation on the store can fail.
#[derive(Clone, Copy, Debug, PartialEq, Eq, Structural)]
pub enum AssetError {
    /// A caller-supplied digest did not match the computed digest on store.
    IntegrityMismatch,
    /// The key is absent.
    NotFound,
    /// The key exists but the named encoding does not.
    EncodingNotFound,
    /// The streaming continuation protocol is not implemented.
    Unimplemented,
}

/// The concatenation of a sequence of chunks.
pub open spec fn concat_chunks(cs: Seq<Seq<u8>>) -> Seq<u8>
    decreases cs.len(),
{
    if cs.len() == 0 {
        Seq::empty()
    } else {
        concat_chunks(cs.drop_last()) + cs.last()
    }
}

/// One content variant of an asset.
pub struct AssetEncoding {
    pub modified: u64,
    pub content_chunks: Vec<Vec<u8>>,
    pub total_length: usize,
    pub certified: bool,
    pub sha256: Vec<u8>,
}

/// The ghost form of an encoding.
#[verifier::ext_equal]
pub struct EncodingView {
    pub modified: u64,
    pub content_chunks: Seq<Seq<u8>>,
    pub total_length: int,
    pub certified: bool,
    pub sha256: Seq<u8>,
}

impl View for AssetEncoding {
    type V = EncodingView;

    open spec fn view(&self) -> EncodingView {
        EncodingView {
            modified: self.modified,
            content_chunks: Seq::new(self.content_chunks@.len(), |i: int| self.content_chunks@[i]@),
            total_length: self.total_length as int,
            certified: self.certified,
            sha256: self.sha256@,
        }
    }
}

/// The recorded length matches the stored chunks and the digest has the
/// size of a SHA-256 output.
pub open spec fn encoding_wf(e: EncodingView) -> bool {
    &&& e.total_length == concat_chunks(e.content_chunks).len()
    &&& e.sha256.len() == 32
}

/// A named resource: its content type, its encodings, and the response
/// metadata stored with it.
pub struct Asset {
    pub content_type: Vec<u8>,
    pub encodings: Vec<(Vec<u8>, AssetEncoding)>,
    pub max_age: Option<u64>,
    pub headers: Option<Vec<(Vec<u8>, Vec<u8>)>>,
    pub is_aliased: Option<bool>,
    pub allow_raw_access: Option<bool>,
}

/// The ghost form of an asset: its encodings as a map.
#[verifier::ext_equal]
pub struct AssetView {
    pub content_type: Seq<u8>,
    pub encodings: Map<Seq<u8>, EncodingView>,
    pub max_age: Option<u64>,
    pub headers: Option<Seq<(Seq<u8>, Seq<u8>)>>,
    pub is_aliased: Option<bool>,
    pub allow_raw_access: Option<bool>,
}

impl View for Asset {
    type V = AssetView;

    open spec fn view(&self) -> AssetView {
        AssetView {
            content_type: self.content_type@,
            encodings: assoc_map(self.encodings@),
            max_age: self.max_age,
            headers: match self.headers {
                Some(h) => Some(Seq::new(h@.len(), |i: int| (h@[i].0@, h@[i].1@))),
                None => None,
            },
            is_aliased: self.is_aliased,
            allow_raw_access: self.allow_raw_access,
        }
    }
}

impl Asset {
    /// Encodings sorted by name and each internally consistent.
    pub open spec fn wf(&self) -> bool {
        &&& sorted_assoc(self.encodings@)
        &&& forall|i: int|
            0 <= i < self.encodings@.len() ==> encoding_wf((#[trigger] self.encodings@[i]).1@)
    }

    /// The response headers that describe this asset: content type, the
    /// named encoding's length when that encoding exists, and the fixed
    /// hardening headers.
    pub fn get_headers_for_asset(&self, enc_name: &Vec<u8>) -> (r: Vec<(Vec<u8>, Vec<u8>)>)
        requires
            self.wf(),
        ensures
            pairs_view(r@) == spec_asset_headers(self@, enc_name@),
    {
        let mut r: Vec<(Vec<u8>, Vec<u8>)> = Vec::new();
        r.push((hdr_content_type(), slice_to_vec(self.content_type.as_slice())));
        let (found, idx) = assoc_find(&self.encodings, enc_name);
        if found {
            let len64 = self.encodings[idx].1.total_length as u64;
            r.push((hdr_content_length(), u64_to_decimal(len64)));
            proof {
                crate::assoc::lemma_assoc_map_index(self.encodings@);
                assert(assoc_map(self.encodings@).contains_pair(
                    enc_name@,
                    self.encodings@[idx as int].1@,
                ));
            }
        }
        r.push((hdr_strict_transport_security(), val_strict_transport_security()));
        r.push((hdr_x_frame_options(), val_deny()));
        r.push((hdr_x_content_type_options(), val_nosniff()));
        proof {
            assert(pairs_view(r@) =~= spec_asset_headers(self@, enc_name@));
        }
        r
    }
}

/// The ghost form of a header list: each name and value as byte sequences.
pub open spec fn pairs_view(s: Seq<(Vec<u8>, Vec<u8>)>) -> Seq<(Seq<u8>, Seq<u8>)> {
    Seq::new(s.len(), |i: int| (s[i].0@, s[i].1@))
}

/// The headers that describe an asset: content type first, the named
/// encoding's decimal length when that encoding exists, then the fixed
/// hardening headers.
pub open spec fn spec_asset_headers(a: AssetView, enc_name: Seq<u8>) -> Seq<(Seq<u8>, Seq<u8>)> {
    let hardening = seq![
        (spec_hdr_strict_transport_security(), spec_val_strict_transport_security()),
        (spec_hdr_x_frame_options(), spec_val_deny()),
        (spec_hdr_x_content_type_options(), spec_val_nosniff()),
    ];
    if a.encodings.contains_key(enc_name) {
        seq![
            (spec_hdr_content_type(), a.content_type),
            (spec_hdr_content_length(), dec_digits(a.encodings[enc_name].total_length)),
        ] + hardening
    } else {
        seq![(spec_hdr_content_type(), a.content_type)] + hardening
    }
}

/// Concatenates stored chunks into the full content.
pub fn concat_content(chunks: &Vec<Vec<u8>>) -> (r: Vec<u8>)
    ensures
        r@ == concat_chunks(Seq::new(chunks@.len(), |i: int| chunks@[i]@)),
{
    let ghost cs = Seq::new(chunks@.len(), |i: int| chunks@[i]@);
    let mut out: Vec<u8> = Vec::new();
    let mut i: usize = 0;
    proof {
        assert(cs.take(0) =~= Seq::<Seq<u8>>::empty());
    }
    while i < chunks.len()
        invariant
            i <= chunks@.len(),
            cs == Seq::new(chunks@.len(), |j: int| chunks@[j]@),
            out@ == concat_chunks(cs.take(i as int)),
        decreases chunks@.len() - i,
    {
        out.extend_from_slice(chunks[i].as_slice());
        proof {
            assert(cs.take(i + 1).drop_last() =~= cs.take(i as int));
            assert(cs.take(i + 1).last() == cs[i as int]);
        }
        i = i + 1;
    }
    proof {
        assert(cs.take(i as int) =~= cs);
    }
    out
}

/// The argument of a store operation.
pub struct StoreArg {
    pub key: Vec<u8>,
    pub content_type: Vec<u8>,
    pub content_encoding: Vec<u8>,
    pub content: Vec<u8>,
    pub sha256: Option<Vec<u8>>,
    pub aliased: Option<bool>,
}

/// An incoming request: only the URL is consulted by the serving logic.
pub struct HttpRequest {
    pub method: Vec<u8>,
    pub url: Vec<u8>,
    pub headers: Vec<(Vec<u8>, Vec<u8>)>,
    pub body: Vec<u8>,
}

/// An outgoing response.
pub struct HttpResponse {
    pub status_code: u16,
    pub headers: Vec<(Vec<u8>, Vec<u8>)>,
    pub body: Vec<u8>,
    pub upgrade: Option<bool>,
    pub streaming_strategy: Option<StreamingStrategy>,
}

/// A capability to continue retrieving one asset's encoding.
pub struct StreamingCallbackToken {
    pub key: Vec<u8>,
    pub content_encoding: Vec<u8>,
    pub index: u64,
    pub sha256: Option<Vec<u8>>,
}

/// How a response asks the client to fetch the remaining chunks.
pub enum StreamingStrategy {
    Callback { token: StreamingCallbackToken },
}

/// One step of the streaming continuation protocol.
pub struct StreamingCallbackHttpResponse {
    pub body: Vec<u8>,
    pub token: Option<StreamingCallbackToken>,
}

} // verus!
