//! A small HTTP/1.1 request/response engine for constrained targets.
//!
//! The crate turns the bytes of one connection into a structured request,
//! picks the handler that a route chain selects for it, and frames the
//! response. Every function here is verified; transports and handlers are
//! supplied by the caller.

pub mod bytes;
pub mod error;
pub mod method;
pub mod parse;
pub mod request;
pub mod response;
pub mod route;
pub mod router;
pub mod serve;
pub mod wire;
