//! Error taxonomy of the resign pipeline.

use vstd::prelude::*;

verus! {

/// Every failure the pipeline can report.
#[derive(Debug, Clone, Copy, PartialEq, Eq, Structural)]
pub enum ResignError {
    /// The outer request envelope is malformed (missing or mistyped field).
    FormatError,
    /// The payload is not valid base64.
    EncodingError,
    /// The binary transaction is truncated, inconsistent, or has trailing
    /// bytes.
    DecodeError,
    /// A compiled instruction references an account index that is out of
    /// range for the message's key table.
    MalformedMessageError,
    /// The signer key could not be read or resolved.
    KeyLoadError,
    /// The network endpoint failed while fetching an anchor or submitting.
    EndpointError,
}

} // verus!
