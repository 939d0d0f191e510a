//! The errors that end the handling of a connection.

use vstd::prelude::*;

verus! {

/// The error type of the request-head parser.
#[verifier::external_type_specification]
#[verifier::external_body]
pub struct ExParserError(httparse::Error);

/// A fault in what the client sent. No response is attempted after one.
#[derive(Clone, Copy, Debug, PartialEq, Eq)]
pub enum ProtocolError {
    /// The request line or a header line is malformed.
    Parser(httparse::Error),
    /// The request target is missing or its path is not well formed.
    InvalidUrl,
    /// The method is missing or is not a known method token.
    InvalidMethod,
    /// The buffer filled up before the head was complete.
    HeadTooLarge,
    /// The head holds more headers than the index table has slots.
    TooManyHeaders,
    /// A part that the parser reported does not lie in the head's bytes.
    HeadIndex,
}

/// Why serving a connection stopped early.
#[derive(Debug, PartialEq, Eq)]
pub enum ServiceError<E, B> {
    /// The transport failed while reading or writing.
    Io(E),
    /// The client sent something this engine does not accept.
    ProtocolError(ProtocolError),
    /// The response body failed after the status line may have been sent.
    Body(B),
}

} // verus!
