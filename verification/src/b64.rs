//! Base64, computed by the `base64` crate: the transport form of the
//! certificate and witness bytes in the certification header.

use vstd::prelude::*;
use base64::Engine;

verus! {

/// The standard-alphabet, padded base64 form of a byte sequence, as the
/// `base64` crate computes it: a function of the input bytes alone.
pub uninterp spec fn base64_of(data: Seq<u8>) -> Seq<u8>;

/// Inputs whose base64 form the encoder can size without overflowing.
pub open spec fn b64_fits(data: Seq<u8>) -> bool {
    data.len() <= 0x40000000
}

/// Relies on `base64::prelude::BASE64_STANDARD`, through `Engine::encode`:
/// the standard alphabet with padding, a function of the input bytes
/// alone. The length bound keeps clear of the panic in the encoder's
/// output-size computation.
#[verifier::external_body]
fn base64_encode_raw(data: &Vec<u8>) -> (r: Vec<u8>)
    requires
        b64_fits(data@),
    ensures
        r@ == base64_of(data@),
{
    base64::prelude::BASE64_STANDARD.encode(data).into_bytes()
}

/// Encodes when the input is small enough for the encoder, which every
/// byte string that fits in memory is.
pub fn base64_encode(data: &Vec<u8>) -> (r: Option<Vec<u8>>)
    ensures
        match r {
            Some(v) => b64_fits(data@) && v@ == base64_of(data@),
            None => !b64_fits(data@),
        },
{
    if data.len() <= 0x40000000usize {
        Some(base64_encode_raw(data))
    } else {
        None
    }
}

} // verus!
