//! Route nodes: the pieces that a route chain is made of.

use vstd::prelude::*;
use vstd::string::*;
use crate::bytes::bytes_eq;
use crate::method::Method;

verus! {

/// What a route chain selects for a request.
#[derive(Debug, PartialEq, Eq)]
pub enum Matched<H> {
    /// The handler of the first leaf that matches.
    Handler(H),
    /// The catch-all at the end of the chain: the fixed not-found response.
    NotFound,
}

/// What a borrowed selection stands for.
pub open spec fn selection<H>(r: Option<Matched<&H>>) -> Option<Matched<H>> {
    match r {
        Some(Matched::Handler(h)) => Some(Matched::Handler(*h)),
        Some(Matched::NotFound) => Some(Matched::NotFound),
        None => None,
    }
}

/// A node of a route chain over handlers of type `H`.
pub trait Route<H> {
    /// What the node selects for a request; `None` when it does not match.
    spec fn select(&self, method: Method, path: Seq<u8>) -> Option<Matched<H>>;

    /// The node matches every request.
    spec fn total(&self) -> bool;

    /// A total node selects something for every request.
    proof fn lemma_total_selects(&self, method: Method, path: Seq<u8>)
        ensures
            self.total() ==> self.select(method, path) is Some,
    ;

    /// Matches a request against the node.
    fn match_request(&self, method: Method, path: &[u8]) -> (r: Option<Matched<&H>>)
        ensures
            selection(r) == self.select(method, path@),
    ;
}

/// The terminal of every chain: matches every request.
#[derive(Clone, Copy, Debug)]
pub struct NotFound;

/// A leaf that matches one method and holds its handler.
#[derive(Debug)]
pub struct MethodRoute<H> {
    pub method: Method,
    pub handler: H,
}

/// A node that guards its inner route by a literal path.
#[derive(Debug)]
pub struct Path<R> {
    pub path: &'static str,
    pub route: R,
}

/// A node that tries its route first and its fallback only when the route
/// does not match.
#[derive(Debug)]
pub struct Fallback<A, B> {
    pub route: A,
    pub fallback: B,
}

impl<H> Route<H> for NotFound {
    open spec fn select(&self, method: Method, path: Seq<u8>) -> Option<Matched<H>> {
        Some(Matched::NotFound)
    }

    open spec fn total(&self) -> bool {
        true
    }

    proof fn lemma_total_selects(&self, method: Method, path: Seq<u8>) {
    }

    fn match_request(&self, method: Method, path: &[u8]) -> (r: Option<Matched<&H>>) {
        Some(Matched::NotFound)
    }
}

impl<H> Route<H> for MethodRoute<H> {
    open spec fn select(&self, method: Method, path: Seq<u8>) -> Option<Matched<H>> {
        if method == self.method {
            Some(Matched::Handler(self.handler))
        } else {
            None
        }
    }

    open spec fn total(&self) -> bool {
        false
    }

    proof fn lemma_total_selects(&self, method: Method, path: Seq<u8>) {
    }

    fn match_request(&self, method: Method, path: &[u8]) -> (r: Option<Matched<&H>>) {
        if method == self.method {
            Some(Matched::Handler(&self.handler))
        } else {
            None
        }
    }
}

impl<H, R: Route<H>> Route<H> for Path<R> {
    open spec fn select(&self, method: Method, path: Seq<u8>) -> Option<Matched<H>> {
        if path == self.path.spec_bytes() {
            self.route.select(method, path)
        } else {
            None
        }
    }

    open spec fn total(&self) -> bool {
        false
    }

    proof fn lemma_total_selects(&self, method: Method, path: Seq<u8>) {
    }

    fn match_request(&self, method: Method, path: &[u8]) -> (r: Option<Matched<&H>>) {
        if bytes_eq(path, self.path.as_bytes()) {
            self.route.match_request(method, path)
        } else {
            None
        }
    }
}

impl<H, A: Route<H>, B: Route<H>> Route<H> for Fallback<A, B> {
    open spec fn select(&self, method: Method, path: Seq<u8>) -> Option<Matched<H>> {
        match self.route.select(method, path) {
            Some(matched) => Some(matched),
            None => self.fallback.select(method, path),
        }
    }

    open spec fn total(&self) -> bool {
        self.route.total() || self.fallback.total()
    }

    proof fn lemma_total_selects(&self, method: Method, path: Seq<u8>) {
        self.route.lemma_total_selects(method, path);
        self.fallback.lemma_total_selects(method, path);
    }

    fn match_request(&self, method: Method, path: &[u8]) -> (r: Option<Matched<&H>>) {
        match self.route.match_request(method, path) {
            Some(matched) => Some(matched),
            None => self.fallback.match_request(method, path),
        }
    }
}

/// A leaf for `GET` requests.
pub fn get<H>(handler: H) -> (r: MethodRoute<H>)
    ensures
        r == (MethodRoute { method: Method::Get, handler }),
{
    MethodRoute { method: Method::Get, handler }
}

/// A leaf for `POST` requests.
pub fn post<H>(handler: H) -> (r: MethodRoute<H>)
    ensures
        r == (MethodRoute { method: Method::Post, handler }),
{
    MethodRoute { method: Method::Post, handler }
}

/// A leaf for `PUT` requests.
pub fn put<H>(handler: H) -> (r: MethodRoute<H>)
    ensures
        r == (MethodRoute { method: Method::Put, handler }),
{
    MethodRoute { method: Method::Put, handler }
}

/// A leaf for `DELETE` requests.
pub fn delete<H>(handler: H) -> (r: MethodRoute<H>)
    ensures
        r == (MethodRoute { method: Method::Delete, handler }),
{
    MethodRoute { method: Method::Delete, handler }
}

/// A leaf for `HEAD` requests.
pub fn head<H>(handler: H) -> (r: MethodRoute<H>)
    ensures
        r == (MethodRoute { method: Method::Head, handler }),
{
    MethodRoute { method: Method::Head, handler }
}

/// A leaf for `OPTIONS` requests.
pub fn options<H>(handler: H) -> (r: MethodRoute<H>)
    ensures
        r == (MethodRoute { method: Method::Options, handler }),
{
    MethodRoute { method: Method::Options, handler }
}

/// A leaf for `CONNECT` requests.
pub fn connect<H>(handler: H) -> (r: MethodRoute<H>)
    ensures
        r == (MethodRoute { method: Method::Connect, handler }),
{
    MethodRoute { method: Method::Connect, handler }
}

/// A leaf for `PATCH` requests.
pub fn patch<H>(handler: H) -> (r: MethodRoute<H>)
    ensures
        r == (MethodRoute { method: Method::Patch, handler }),
{
    MethodRoute { method: Method::Patch, handler }
}

/// A leaf for `TRACE` requests.
pub fn trace<H>(handler: H) -> (r: MethodRoute<H>)
    ensures
        r == (MethodRoute { method: Method::Trace, handler }),
{
    MethodRoute { method: Method::Trace, handler }
}

} // verus!
