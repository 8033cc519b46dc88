//! The fixed byte strings of the protocol: encoding and header names,
//! header values, and diagnostic bodies.

use vstd::prelude::*;

verus! {

/// "identity"
pub open spec fn spec_enc_identity() -> Seq<u8> {
    seq![105u8, 100u8, 101u8, 110u8, 116u8, 105u8, 116u8, 121u8]
}

/// Builds the byte string "identity".
pub fn enc_identity() -> (r: Vec<u8>)
    ensures
        r@ == spec_enc_identity(),
{
    let v: Vec<u8> = vec![105u8, 100u8, 101u8, 110u8, 116u8, 105u8, 116u8, 121u8];
    proof {
        assert(v@ =~= spec_enc_identity());
    }
    v
}

/// "Content-Type"
pub open spec fn spec_hdr_content_type() -> Seq<u8> {
    seq![67u8, 111u8, 110u8, 116u8, 101u8, 110u8, 116u8, 45u8, 84u8, 121u8, 112u8, 101u8]
}

/// Builds the byte string "Content-Type".
pub fn hdr_content_type() -> (r: Vec<u8>)
    ensures
        r@ == spec_hdr_content_type(),
{
    let v: Vec<u8> = vec![67u8, 111u8, 110u8, 116u8, 101u8, 110u8, 116u8, 45u8, 84u8, 121u8, 112u8, 101u8];
    proof {
        assert(v@ =~= spec_hdr_content_type());
    }
    v
}

/// "Content-Length"
pub open spec fn spec_hdr_content_length() -> Seq<u8> {
    seq![67u8, 111u8, 110u8, 116u8, 101u8, 110u8, 116u8, 45u8, 76u8, 101u8, 110u8, 103u8, 116u8, 104u8]
}

/// Builds the byte string "Content-Length".
pub fn hdr_content_length() -> (r: Vec<u8>)
    ensures
        r@ == spec_hdr_content_length(),
{
    let v: Vec<u8> = vec![67u8, 111u8, 110u8, 116u8, 101u8, 110u8, 116u8, 45u8, 76u8, 101u8, 110u8, 103u8, 116u8, 104u8];
    proof {
        assert(v@ =~= spec_hdr_content_length());
    }
    v
}

/// "IC-Certificate"
pub open spec fn spec_hdr_ic_certificate() -> Seq<u8> {
    seq![73u8, 67u8, 45u8, 67u8, 101u8, 114u8, 116u8, 105u8, 102u8, 105u8, 99u8, 97u8, 116u8, 101u8]
}

/// Builds the byte string "IC-Certificate".
pub fn hdr_ic_certificate() -> (r: Vec<u8>)
    ensures
        r@ == spec_hdr_ic_certificate(),
{
    let v: Vec<u8> = vec![73u8, 67u8, 45u8, 67u8, 101u8, 114u8, 116u8, 105u8, 102u8, 105u8, 99u8, 97u8, 116u8, 101u8];
    proof {
        assert(v@ =~= spec_hdr_ic_certificate());
    }
    v
}

/// "IC-Certificate-Witness"
pub open spec fn spec_hdr_ic_certificate_witness() -> Seq<u8> {
    seq![73u8, 67u8, 45u8, 67u8, 101u8, 114u8, 116u8, 105u8, 102u8, 105u8, 99u8, 97u8, 116u8, 101u8, 45u8, 87u8, 105u8, 116u8, 110u8, 101u8, 115u8, 115u8]
}

/// Builds the byte string "IC-Certificate-Witness".
pub fn hdr_ic_certificate_witness() -> (r: Vec<u8>)
    ensures
        r@ == spec_hdr_ic_certificate_witness(),
{
    let v: Vec<u8> = vec![73u8, 67u8, 45u8, 67u8, 101u8, 114u8, 116u8, 105u8, 102u8, 105u8, 99u8, 97u8, 116u8, 101u8, 45u8, 87u8, 105u8, 116u8, 110u8, 101u8, 115u8, 115u8];
    proof {
        assert(v@ =~= spec_hdr_ic_certificate_witness());
    }
    v
}

/// "Strict-Transport-Security"
pub open spec fn spec_hdr_strict_transport_security() -> Seq<u8> {
    seq![83u8, 116u8, 114u8, 105u8, 99u8, 116u8, 45u8, 84u8, 114u8, 97u8, 110u8, 115u8, 112u8, 111u8, 114u8, 116u8, 45u8, 83u8, 101u8, 99u8, 117u8, 114u8, 105u8, 116u8, 121u8]
}

/// Builds the byte string "Strict-Transport-Security".
pub fn hdr_strict_transport_security() -> (r: Vec<u8>)
    ensures
        r@ == spec_hdr_strict_transport_security(),
{
    let v: Vec<u8> = vec![83u8, 116u8, 114u8, 105u8, 99u8, 116u8, 45u8, 84u8, 114u8, 97u8, 110u8, 115u8, 112u8, 111u8, 114u8, 116u8, 45u8, 83u8, 101u8, 99u8, 117u8, 114u8, 105u8, 116u8, 121u8];
    proof {
        assert(v@ =~= spec_hdr_strict_transport_security());
    }
    v
}

/// "max-age=31536000; includeSubDomains"
pub open spec fn spec_val_strict_transport_security() -> Seq<u8> {
    seq![109u8, 97u8, 120u8, 45u8, 97u8, 103u8, 101u8, 61u8, 51u8, 49u8, 53u8, 51u8, 54u8, 48u8, 48u8, 48u8, 59u8, 32u8, 105u8, 110u8, 99u8, 108u8, 117u8, 100u8, 101u8, 83u8, 117u8, 98u8, 68u8, 111u8, 109u8, 97u8, 105u8, 110u8, 115u8]
}

/// Builds the byte string "max-age=31536000; includeSubDomains".
pub fn val_strict_transport_security() -> (r: Vec<u8>)
    ensures
        r@ == spec_val_strict_transport_security(),
{
    let v: Vec<u8> = vec![109u8, 97u8, 120u8, 45u8, 97u8, 103u8, 101u8, 61u8, 51u8, 49u8, 53u8, 51u8, 54u8, 48u8, 48u8, 48u8, 59u8, 32u8, 105u8, 110u8, 99u8, 108u8, 117u8, 100u8, 101u8, 83u8, 117u8, 98u8, 68u8, 111u8, 109u8, 97u8, 105u8, 110u8, 115u8];
    proof {
        assert(v@ =~= spec_val_strict_transport_security());
    }
    v
}

/// "X-Frame-Options"
pub open spec fn spec_hdr_x_frame_options() -> Seq<u8> {
    seq![88u8, 45u8, 70u8, 114u8, 97u8, 109u8, 101u8, 45u8, 79u8, 112u8, 116u8, 105u8, 111u8, 110u8, 115u8]
}

/// Builds the byte string "X-Frame-Options".
pub fn hdr_x_frame_options() -> (r: Vec<u8>)
    ensures
        r@ == spec_hdr_x_frame_options(),
{
    let v: Vec<u8> = vec![88u8, 45u8, 70u8, 114u8, 97u8, 109u8, 101u8, 45u8, 79u8, 112u8, 116u8, 105u8, 111u8, 110u8, 115u8];
    proof {
        assert(v@ =~= spec_hdr_x_frame_options());
    }
    v
}

/// "DENY"
pub open spec fn spec_val_deny() -> Seq<u8> {
    seq![68u8, 69u8, 78u8, 89u8]
}

/// Builds the byte string "DENY".
pub fn val_deny() -> (r: Vec<u8>)
    ensures
        r@ == spec_val_deny(),
{
    let v: Vec<u8> = vec![68u8, 69u8, 78u8, 89u8];
    proof {
        assert(v@ =~= spec_val_deny());
    }
    v
}

/// "X-Content-Type-Options"
pub open spec fn spec_hdr_x_content_type_options() -> Seq<u8> {
    seq![88u8, 45u8, 67u8, 111u8, 110u8, 116u8, 101u8, 110u8, 116u8, 45u8, 84u8, 121u8, 112u8, 101u8, 45u8, 79u8, 112u8, 116u8, 105u8, 111u8, 110u8, 115u8]
}

/// Builds the byte string "X-Content-Type-Options".
pub fn hdr_x_content_type_options() -> (r: Vec<u8>)
    ensures
        r@ == spec_hdr_x_content_type_options(),
{
    let v: Vec<u8> = vec![88u8, 45u8, 67u8, 111u8, 110u8, 116u8, 101u8, 110u8, 116u8, 45u8, 84u8, 121u8, 112u8, 101u8, 45u8, 79u8, 112u8, 116u8, 105u8, 111u8, 110u8, 115u8];
    proof {
        assert(v@ =~= spec_hdr_x_content_type_options());
    }
    v
}

/// "nosniff"
pub open spec fn spec_val_nosniff() -> Seq<u8> {
    seq![110u8, 111u8, 115u8, 110u8, 105u8, 102u8, 102u8]
}

/// Builds the byte string "nosniff".
pub fn val_nosniff() -> (r: Vec<u8>)
    ensures
        r@ == spec_val_nosniff(),
{
    let v: Vec<u8> = vec![110u8, 111u8, 115u8, 110u8, 105u8, 102u8, 102u8];
    proof {
        assert(v@ =~= spec_val_nosniff());
    }
    v
}

/// "Asset not found"
pub open spec fn spec_msg_asset_not_found() -> Seq<u8> {
    seq![65u8, 115u8, 115u8, 101u8, 116u8, 32u8, 110u8, 111u8, 116u8, 32u8, 102u8, 111u8, 117u8, 110u8, 100u8]
}

/// Builds the byte string "Asset not found".
pub fn msg_asset_not_found() -> (r: Vec<u8>)
    ensures
        r@ == spec_msg_asset_not_found(),
{
    let v: Vec<u8> = vec![65u8, 115u8, 115u8, 101u8, 116u8, 32u8, 110u8, 111u8, 116u8, 32u8, 102u8, 111u8, 117u8, 110u8, 100u8];
    proof {
        assert(v@ =~= spec_msg_asset_not_found());
    }
    v
}

/// "Asset encoding not found"
pub open spec fn spec_msg_encoding_not_found() -> Seq<u8> {
    seq![65u8, 115u8, 115u8, 101u8, 116u8, 32u8, 101u8, 110u8, 99u8, 111u8, 100u8, 105u8, 110u8, 103u8, 32u8, 110u8, 111u8, 116u8, 32u8, 102u8, 111u8, 117u8, 110u8, 100u8]
}

/// Builds the byte string "Asset encoding not found".
pub fn msg_encoding_not_found() -> (r: Vec<u8>)
    ensures
        r@ == spec_msg_encoding_not_found(),
{
    let v: Vec<u8> = vec![65u8, 115u8, 115u8, 101u8, 116u8, 32u8, 101u8, 110u8, 99u8, 111u8, 100u8, 105u8, 110u8, 103u8, 32u8, 110u8, 111u8, 116u8, 32u8, 102u8, 111u8, 117u8, 110u8, 100u8];
    proof {
        assert(v@ =~= spec_msg_encoding_not_found());
    }
    v
}

/// "Asset integrity check failed"
pub open spec fn spec_msg_integrity_failed() -> Seq<u8> {
    seq![65u8, 115u8, 115u8, 101u8, 116u8, 32u8, 105u8, 110u8, 116u8, 101u8, 103u8, 114u8, 105u8, 116u8, 121u8, 32u8, 99u8, 104u8, 101u8, 99u8, 107u8, 32u8, 102u8, 97u8, 105u8, 108u8, 101u8, 100u8]
}

/// Builds the byte string "Asset integrity check failed".
pub fn msg_integrity_failed() -> (r: Vec<u8>)
    ensures
        r@ == spec_msg_integrity_failed(),
{
    let v: Vec<u8> = vec![65u8, 115u8, 115u8, 101u8, 116u8, 32u8, 105u8, 110u8, 116u8, 101u8, 103u8, 114u8, 105u8, 116u8, 121u8, 32u8, 99u8, 104u8, 101u8, 99u8, 107u8, 32u8, 102u8, 97u8, 105u8, 108u8, 101u8, 100u8];
    proof {
        assert(v@ =~= spec_msg_integrity_failed());
    }
    v
}

/// "Failed to decode path: invalid percent-encoding"
pub open spec fn spec_msg_decode_failed() -> Seq<u8> {
    seq![70u8, 97u8, 105u8, 108u8, 101u8, 100u8, 32u8, 116u8, 111u8, 32u8, 100u8, 101u8, 99u8, 111u8, 100u8, 101u8, 32u8, 112u8, 97u8, 116u8, 104u8, 58u8, 32u8, 105u8, 110u8, 118u8, 97u8, 108u8, 105u8, 100u8, 32u8, 112u8, 101u8, 114u8, 99u8, 101u8, 110u8, 116u8, 45u8, 101u8, 110u8, 99u8, 111u8, 100u8, 105u8, 110u8, 103u8]
}

/// Builds the byte string "Failed to decode path: invalid percent-encoding".
pub fn msg_decode_failed() -> (r: Vec<u8>)
    ensures
        r@ == spec_msg_decode_failed(),
{
    let v: Vec<u8> = vec![70u8, 97u8, 105u8, 108u8, 101u8, 100u8, 32u8, 116u8, 111u8, 32u8, 100u8, 101u8, 99u8, 111u8, 100u8, 101u8, 32u8, 112u8, 97u8, 116u8, 104u8, 58u8, 32u8, 105u8, 110u8, 118u8, 97u8, 108u8, 105u8, 100u8, 32u8, 112u8, 101u8, 114u8, 99u8, 101u8, 110u8, 116u8, 45u8, 101u8, 110u8, 99u8, 111u8, 100u8, 105u8, 110u8, 103u8];
    proof {
        assert(v@ =~= spec_msg_decode_failed());
    }
    v
}

/// "certificate=:"
pub open spec fn spec_cert_header_prefix() -> Seq<u8> {
    seq![99u8, 101u8, 114u8, 116u8, 105u8, 102u8, 105u8, 99u8, 97u8, 116u8, 101u8, 61u8, 58u8]
}

/// Builds the byte string "certificate=:".
pub fn cert_header_prefix() -> (r: Vec<u8>)
    ensures
        r@ == spec_cert_header_prefix(),
{
    let v: Vec<u8> = vec![99u8, 101u8, 114u8, 116u8, 105u8, 102u8, 105u8, 99u8, 97u8, 116u8, 101u8, 61u8, 58u8];
    proof {
        assert(v@ =~= spec_cert_header_prefix());
    }
    v
}

/// ":, tree=:"
pub open spec fn spec_cert_header_middle() -> Seq<u8> {
    seq![58u8, 44u8, 32u8, 116u8, 114u8, 101u8, 101u8, 61u8, 58u8]
}

/// Builds the byte string ":, tree=:".
pub fn cert_header_middle() -> (r: Vec<u8>)
    ensures
        r@ == spec_cert_header_middle(),
{
    let v: Vec<u8> = vec![58u8, 44u8, 32u8, 116u8, 114u8, 101u8, 101u8, 61u8, 58u8];
    proof {
        assert(v@ =~= spec_cert_header_middle());
    }
    v
}

/// ":"
pub open spec fn spec_cert_header_suffix() -> Seq<u8> {
    seq![58u8]
}

/// Builds the byte string ":".
pub fn cert_header_suffix() -> (r: Vec<u8>)
    ensures
        r@ == spec_cert_header_suffix(),
{
    let v: Vec<u8> = vec![58u8];
    proof {
        assert(v@ =~= spec_cert_header_suffix());
    }
    v
}

} // verus!
