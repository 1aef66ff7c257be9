//! The outer request envelope, and the base64 decoding of its payload.

use vstd::prelude::*;
use crate::error::ResignError;

verus! {

/// The second element of the envelope's parameter pair.
pub struct EnvelopeParams {
    pub encoding: String,
    pub preflight_commitment: String,
}

/// The external request wrapper. `payload` is the first element of the
/// parameter pair: the base64 text of the serialized transaction.
pub struct Envelope {
    pub method: String,
    pub jsonrpc: String,
    pub payload: String,
    pub params: EnvelopeParams,
    pub id: String,
}

/// What base64 decoding of a text yields: the bytes when the text is
/// valid standard-alphabet base64, nothing otherwise.
pub uninterp spec fn base64_decoded(s: Seq<char>) -> Option<Seq<u8>>;

#[verifier::external_type_specification]
#[verifier::external_body]
pub struct ExDecodeError(base64::DecodeError);

/// Relies on base64::decode (standard alphabet, padding required): the
/// result depends on the input characters alone, and invalid input is
/// rejected.
#[verifier::external_body]
fn b64_decode(s: &str) -> (r: Result<Vec<u8>, base64::DecodeError>)
    ensures
        match r {
            Ok(b) => base64_decoded(s@) == Some(b@),
            Err(_) => base64_decoded(s@) is None,
        },
{
    base64::decode(s)
}

/// Decodes base64 payload text: yields exactly the bytes that
/// `base64_decoded` names when the text is valid, and `EncodingError`
/// otherwise.
pub fn decode_base64(s: &str) -> (r: Result<Vec<u8>, ResignError>)
    ensures
        match r {
            Ok(b) => base64_decoded(s@) == Some(b@),
            Err(e) => base64_decoded(s@) is None && e == ResignError::EncodingError,
        },
{
    match b64_decode(s) {
        Ok(b) => Ok(b),
        Err(_) => Err(ResignError::EncodingError),
    }
}

} // verus!
