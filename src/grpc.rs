//! Errors of the wire-protocol client.
use vstd::prelude::*;
use vstd::string::StringExecFns;

verus! {

/// An error reported by a wire-protocol client call.
#[derive(Debug, Clone, PartialEq, Eq)]
pub enum MockClientError {
    /// The remote peer answered with an error status carrying this message.
    InvalidRequest(String),
    /// The address text could not be parsed.
    InvalidAddressFormat(String),
}

/// Text of an `InvalidRequest` error carrying `m`.
pub open spec fn invalid_request_text(m: Seq<char>) -> Seq<char> {
    "request failed with message '"@ + m + "'"@
}

/// Text of an `InvalidAddressFormat` error carrying `a`.
pub open spec fn invalid_address_text(a: Seq<char>) -> Seq<char> {
    "could not parse address '"@ + a
        + "'. HINT: accepted format example: /ip4/127.0.0.1/tcp/9000"@
}

impl MockClientError {
    /// The text that describes this error.
    pub open spec fn message_spec(&self) -> Seq<char> {
        match self {
            MockClientError::InvalidRequest(m) => invalid_request_text(m@),
            MockClientError::InvalidAddressFormat(a) => invalid_address_text(a@),
        }
    }

    /// Human-readable description of the error.
    pub fn message(&self) -> (r: String)
        ensures
            r@ == self.message_spec(),
    {
        match self {
            MockClientError::InvalidRequest(m) => {
                let mut s = String::from_str("request failed with message '");
                s.append(m.as_str());
                s.append("'");
                s
            },
            MockClientError::InvalidAddressFormat(a) => {
                let mut s = String::from_str("could not parse address '");
                s.append(a.as_str());
                s.append("'. HINT: accepted format example: /ip4/127.0.0.1/tcp/9000");
                s
            },
        }
    }
}

} // verus!
