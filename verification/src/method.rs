//! Request methods.

use vstd::prelude::*;
use vstd::string::*;
use crate::bytes::bytes_eq;

verus! {

/// The request methods that a route can be registered for.
#[derive(Clone, Copy, Debug, PartialEq, Eq, Structural)]
pub enum Method {
    Get,
    Post,
    Put,
    Delete,
    Head,
    Options,
    Connect,
    Patch,
    Trace,
}

/// The method whose token is `token`, if there is one. Tokens are matched
/// exactly: they are case-sensitive.
pub open spec fn method_of(token: Seq<u8>) -> Option<Method> {
    if token == Method::Get.token() {
        Some(Method::Get)
    } else if token == Method::Post.token() {
        Some(Method::Post)
    } else if token == Method::Put.token() {
        Some(Method::Put)
    } else if token == Method::Delete.token() {
        Some(Method::Delete)
    } else if token == Method::Head.token() {
        Some(Method::Head)
    } else if token == Method::Options.token() {
        Some(Method::Options)
    } else if token == Method::Connect.token() {
        Some(Method::Connect)
    } else if token == Method::Patch.token() {
        Some(Method::Patch)
    } else if token == Method::Trace.token() {
        Some(Method::Trace)
    } else {
        None
    }
}

impl Method {
    /// The method's name as it stands on the wire.
    pub open spec fn name(self) -> &'static str {
        match self {
            Method::Get => "GET",
            Method::Post => "POST",
            Method::Put => "PUT",
            Method::Delete => "DELETE",
            Method::Head => "HEAD",
            Method::Options => "OPTIONS",
            Method::Connect => "CONNECT",
            Method::Patch => "PATCH",
            Method::Trace => "TRACE",
        }
    }

    /// The bytes of the method's name.
    pub open spec fn token(self) -> Seq<u8> {
        self.name().spec_bytes()
    }

    /// The method's name as it stands on the wire.
    pub fn as_str(&self) -> (r: &'static str)
        ensures
            r == self.name(),
    {
        match self {
            Method::Get => "GET",
            Method::Post => "POST",
            Method::Put => "PUT",
            Method::Delete => "DELETE",
            Method::Head => "HEAD",
            Method::Options => "OPTIONS",
            Method::Connect => "CONNECT",
            Method::Patch => "PATCH",
            Method::Trace => "TRACE",
        }
    }

    /// Reads a method token.
    pub fn new(token: &[u8]) -> (r: Option<Method>)
        ensures
            r == method_of(token@),
    {
        if bytes_eq(token, Method::Get.as_str().as_bytes()) {
            Some(Method::Get)
        } else if bytes_eq(token, Method::Post.as_str().as_bytes()) {
            Some(Method::Post)
        } else if bytes_eq(token, Method::Put.as_str().as_bytes()) {
            Some(Method::Put)
        } else if bytes_eq(token, Method::Delete.as_str().as_bytes()) {
            Some(Method::Delete)
        } else if bytes_eq(token, Method::Head.as_str().as_bytes()) {
            Some(Method::Head)
        } else if bytes_eq(token, Method::Options.as_str().as_bytes()) {
            Some(Method::Options)
        } else if bytes_eq(token, Method::Connect.as_str().as_bytes()) {
            Some(Method::Connect)
        } else if bytes_eq(token, Method::Patch.as_str().as_bytes()) {
            Some(Method::Patch)
        } else if bytes_eq(token, Method::Trace.as_str().as_bytes()) {
            Some(Method::Trace)
        } else {
            None
        }
    }
}

/// The bytes of a method's name: its length and its first byte, which
/// together tell the names apart.
proof fn lemma_token_shape(method: Method)
    ensures
        method.token().len() == match method {
            Method::Get | Method::Put => 3nat,
            Method::Post | Method::Head => 4nat,
            Method::Patch | Method::Trace => 5nat,
            Method::Delete => 6nat,
            Method::Options | Method::Connect => 7nat,
        },
        method.token()[0] == match method {
            Method::Get => 0x47u8,
            Method::Post | Method::Put | Method::Patch => 0x50u8,
            Method::Delete => 0x44u8,
            Method::Head => 0x48u8,
            Method::Options => 0x4fu8,
            Method::Connect => 0x43u8,
            Method::Trace => 0x54u8,
        },
        method.token()[1] == match method {
            Method::Post => 0x4fu8,
            Method::Put => 0x55u8,
            Method::Patch => 0x41u8,
            _ => method.token()[1],
        },
{
    reveal_strlit("GET");
    reveal_strlit("POST");
    reveal_strlit("PUT");
    reveal_strlit("DELETE");
    reveal_strlit("HEAD");
    reveal_strlit("OPTIONS");
    reveal_strlit("CONNECT");
    reveal_strlit("PATCH");
    reveal_strlit("TRACE");
    is_ascii_spec_bytes(method.name());
}

/// Every method is read back from its own name: no two names are alike.
pub proof fn lemma_method_of_token(method: Method)
    ensures
        method_of(method.token()) == Some(method),
{
    lemma_token_shape(Method::Get);
    lemma_token_shape(Method::Post);
    lemma_token_shape(Method::Put);
    lemma_token_shape(Method::Delete);
    lemma_token_shape(Method::Head);
    lemma_token_shape(Method::Options);
    lemma_token_shape(Method::Connect);
    lemma_token_shape(Method::Patch);
    lemma_token_shape(Method::Trace);
}

} // verus!
