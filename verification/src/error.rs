use vstd::prelude::*;

verus! {

/// The failure kinds a metadata fetch can end with.  Every failure is
/// terminal for the current fetch: nothing is retried.
#[derive(Clone, Copy, Debug, PartialEq, Eq, Structural)]
pub enum ImdsError {
    /// Both candidate endpoints were unreachable; surfaces at the first
    /// real connection attempt, not during endpoint selection.
    EndpointUnreachable,
    /// A connect, write, or read failed on an attempted connection.
    TransportFailure,
    /// The response frame was malformed: no header/body boundary, a
    /// status line with fewer than two tokens, or a non-numeric status.
    FramingError,
    /// Bytes that must be text (the token body) were not valid UTF-8.
    EncodingError,
    /// A token is mandatory but the token request did not return 200.
    TokenAcquisitionFailure,
}

impl ImdsError {
    /// A short stable name for each failure kind, for callers that
    /// display errors.
    pub fn describe(&self) -> (r: &'static str)
        ensures
            r@ == self.spec_describe(),
    {
        match self {
            ImdsError::EndpointUnreachable => "endpoint unreachable",
            ImdsError::TransportFailure => "transport failure",
            ImdsError::FramingError => "malformed response frame",
            ImdsError::EncodingError => "response bytes are not valid text",
            ImdsError::TokenAcquisitionFailure => "failed to fetch token",
        }
    }

    /// What `describe` returns for each kind.
    pub open spec fn spec_describe(&self) -> Seq<char> {
        match self {
            ImdsError::EndpointUnreachable => "endpoint unreachable"@,
            ImdsError::TransportFailure => "transport failure"@,
            ImdsError::FramingError => "malformed response frame"@,
            ImdsError::EncodingError => "response bytes are not valid text"@,
            ImdsError::TokenAcquisitionFailure => "failed to fetch token"@,
        }
    }
}

} // verus!
