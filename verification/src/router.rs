//! The router: application state and a route chain that always ends in the
//! catch-all.

use core::marker::PhantomData;
use vstd::prelude::*;
use vstd::string::*;
use crate::method::Method;
use crate::route::{selection, Fallback, Matched, MethodRoute, NotFound, Path, Route};

verus! {

/// Marks a router that has been given a route or a state.
#[derive(Debug, Clone, Copy)]
pub enum HasAnyState {
    Marker,
}

/// Marks a router as `new` made it.
#[derive(Debug, Clone, Copy)]
pub enum Untouched {
    Marker,
}

/// Application state of type `S` and a route chain `R` over handlers of
/// type `H`.
pub struct Router<H, R: Route<H>, S = (), HasRoute = Untouched> {
    state: S,
    route: R,
    _priv: PhantomData<(H, HasRoute)>,
}

impl<H, R: Route<H>, S, HasRoute> Router<H, R, S, HasRoute> {
    #[verifier::type_invariant]
    spec fn inv(&self) -> bool {
        self.route.total()
    }

    /// The route chain.
    pub closed spec fn chain(&self) -> R {
        self.route
    }

    /// The application state.
    pub closed spec fn app_state(&self) -> S {
        self.state
    }
}

impl<H> Router<H, NotFound> {
    /// A router whose only route is the catch-all.
    pub fn new() -> (r: Self)
        ensures
            r.chain() == NotFound,
            r.app_state() == (),
    {
        Router { state: (), route: NotFound, _priv: PhantomData }
    }
}

impl<H> Default for Router<H, NotFound> {
    /// A router whose only route is the catch-all.
    fn default() -> (r: Self)
        ensures
            r.chain() == NotFound,
            r.app_state() == (),
    {
        Self::new()
    }
}

impl<H, R: Route<H>, S> Router<H, R, S, Untouched> {
    /// Attaches the application state to a router that has none yet.
    pub fn with_state<S2>(self, state: S2) -> (r: Router<H, R, S2, HasAnyState>)
        ensures
            r.chain() == self.chain(),
            r.app_state() == state,
    {
        proof {
            use_type_invariant(&self);
        }
        Router { route: self.route, state, _priv: PhantomData }
    }
}

impl<H, R: Route<H>, S> Router<H, R, S, HasAnyState> {
    /// Replaces the application state; the routes stay as they are.
    pub fn with_state<S2>(self, state: S2) -> (r: Router<H, R, S2, HasAnyState>)
        ensures
            r.chain() == self.chain(),
            r.app_state() == state,
    {
        proof {
            use_type_invariant(&self);
        }
        Router { route: self.route, state, _priv: PhantomData }
    }
}

impl<H, R: Route<H>, S, HasRoute> Router<H, R, S, HasRoute> {
    /// Registers `route` under `path`, in front of the routes registered so
    /// far: it is tried first, and they only when it does not match.
    pub fn route<T: Route<H>>(self, path: &'static str, route: T) -> (r: Router<
        H,
        Fallback<Path<T>, R>,
        S,
        HasAnyState,
    >)
        ensures
            r.chain() == (Fallback { route: Path { path, route }, fallback: self.chain() }),
            r.app_state() == self.app_state(),
    {
        proof {
            use_type_invariant(&self);
        }
        Router {
            route: Fallback { route: Path { path, route }, fallback: self.route },
            state: self.state,
            _priv: PhantomData,
        }
    }

    /// Registers `handler` for `GET` requests to `path`.
    pub fn get(self, path: &'static str, handler: H) -> (r: Router<
        H,
        Fallback<Path<MethodRoute<H>>, R>,
        S,
        HasAnyState,
    >)
        ensures
            r.chain() == (Fallback {
                route: Path { path, route: MethodRoute { method: Method::Get, handler } },
                fallback: self.chain(),
            }),
            r.app_state() == self.app_state(),
    {
        self.route(path, crate::route::get(handler))
    }

    /// Registers `handler` for `POST` requests to `path`.
    pub fn post(self, path: &'static str, handler: H) -> (r: Router<
        H,
        Fallback<Path<MethodRoute<H>>, R>,
        S,
        HasAnyState,
    >)
        ensures
            r.chain() == (Fallback {
                route: Path { path, route: MethodRoute { method: Method::Post, handler } },
                fallback: self.chain(),
            }),
            r.app_state() == self.app_state(),
    {
        self.route(path, crate::route::post(handler))
    }

    /// Registers `handler` for `PUT` requests to `path`.
    pub fn put(self, path: &'static str, handler: H) -> (r: Router<
        H,
        Fallback<Path<MethodRoute<H>>, R>,
        S,
        HasAnyState,
    >)
        ensures
            r.chain() == (Fallback {
                route: Path { path, route: MethodRoute { method: Method::Put, handler } },
                fallback: self.chain(),
            }),
            r.app_state() == self.app_state(),
    {
        self.route(path, crate::route::put(handler))
    }

    /// Registers `handler` for `DELETE` requests to `path`.
    pub fn delete(self, path: &'static str, handler: H) -> (r: Router<
        H,
        Fallback<Path<MethodRoute<H>>, R>,
        S,
        HasAnyState,
    >)
        ensures
            r.chain() == (Fallback {
                route: Path { path, route: MethodRoute { method: Method::Delete, handler } },
                fallback: self.chain(),
            }),
            r.app_state() == self.app_state(),
    {
        self.route(path, crate::route::delete(handler))
    }

    /// Registers `handler` for `HEAD` requests to `path`.
    pub fn head(self, path: &'static str, handler: H) -> (r: Router<
        H,
        Fallback<Path<MethodRoute<H>>, R>,
        S,
        HasAnyState,
    >)
        ensures
            r.chain() == (Fallback {
                route: Path { path, route: MethodRoute { method: Method::Head, handler } },
                fallback: self.chain(),
            }),
            r.app_state() == self.app_state(),
    {
        self.route(path, crate::route::head(handler))
    }

    /// Registers `handler` for `OPTIONS` requests to `path`.
    pub fn options(self, path: &'static str, handler: H) -> (r: Router<
        H,
        Fallback<Path<MethodRoute<H>>, R>,
        S,
        HasAnyState,
    >)
        ensures
            r.chain() == (Fallback {
                route: Path { path, route: MethodRoute { method: Method::Options, handler } },
                fallback: self.chain(),
            }),
            r.app_state() == self.app_state(),
    {
        self.route(path, crate::route::options(handler))
    }

    /// Registers `handler` for `CONNECT` requests to `path`.
    pub fn connect(self, path: &'static str, handler: H) -> (r: Router<
        H,
        Fallback<Path<MethodRoute<H>>, R>,
        S,
        HasAnyState,
    >)
        ensures
            r.chain() == (Fallback {
                route: Path { path, route: MethodRoute { method: Method::Connect, handler } },
                fallback: self.chain(),
            }),
            r.app_state() == self.app_state(),
    {
        self.route(path, crate::route::connect(handler))
    }

    /// Registers `handler` for `PATCH` requests to `path`.
    pub fn patch(self, path: &'static str, handler: H) -> (r: Router<
        H,
        Fallback<Path<MethodRoute<H>>, R>,
        S,
        HasAnyState,
    >)
        ensures
            r.chain() == (Fallback {
                route: Path { path, route: MethodRoute { method: Method::Patch, handler } },
                fallback: self.chain(),
            }),
            r.app_state() == self.app_state(),
    {
        self.route(path, crate::route::patch(handler))
    }

    /// Registers `handler` for `TRACE` requests to `path`.
    pub fn trace(self, path: &'static str, handler: H) -> (r: Router<
        H,
        Fallback<Path<MethodRoute<H>>, R>,
        S,
        HasAnyState,
    >)
        ensures
            r.chain() == (Fallback {
                route: Path { path, route: MethodRoute { method: Method::Trace, handler } },
                fallback: self.chain(),
            }),
            r.app_state() == self.app_state(),
    {
        self.route(path, crate::route::trace(handler))
    }

    /// The application state.
    pub fn state(&self) -> (r: &S)
        ensures
            *r == self.app_state(),
    {
        &self.state
    }

    /// Selects what answers a request: the handler of the route registered
    /// last among those that match it, or the catch-all when none does.
    pub fn resolve(&self, method: Method, path: &[u8]) -> (r: Matched<&H>)
        ensures
            selection(Some(r)) == self.chain().select(method, path@),
    {
        proof {
            use_type_invariant(self);
            self.route.lemma_total_selects(method, path@);
        }
        match self.route.match_request(method, path) {
            Some(matched) => matched,
            None => vstd::pervasive::unreached(),
        }
    }
}

/// A router without routes answers every request with the catch-all.
pub proof fn lemma_no_routes_not_found<H>(method: Method, path: Seq<u8>)
    ensures
        Route::<H>::select(&NotFound, method, path) == Some(Matched::<H>::NotFound),
{
}

/// A chain that ends in the catch-all selects something for every request:
/// "no match" never leaves it.
pub proof fn lemma_always_matches<H, R: Route<H>>(chain: R, method: Method, path: Seq<u8>)
    requires
        chain.total(),
    ensures
        chain.select(method, path) is Some,
{
    chain.lemma_total_selects(method, path);
}

/// The route registered last is tried first: where it matches a request, its
/// selection stands, whatever was registered before it.
pub proof fn lemma_newest_route_first<H, T: Route<H>, R: Route<H>>(
    path: &'static str,
    route: T,
    earlier: R,
    method: Method,
    request_path: Seq<u8>,
)
    requires
        request_path == path.spec_bytes(),
        route.select(method, request_path) is Some,
    ensures
        (Fallback { route: Path { path, route }, fallback: earlier }).select(method, request_path)
            == route.select(method, request_path),
{
}

/// A request that the newest route does not match is answered as it was
/// before that route was registered.
pub proof fn lemma_unmatched_falls_through<H, T: Route<H>, R: Route<H>>(
    path: &'static str,
    route: T,
    earlier: R,
    method: Method,
    request_path: Seq<u8>,
)
    requires
        request_path != path.spec_bytes() || route.select(method, request_path) is None,
    ensures
        (Fallback { route: Path { path, route }, fallback: earlier }).select(method, request_path)
            == earlier.select(method, request_path),
{
}

/// Last registered wins: of two handlers registered for the same method and
/// path, a request for that method and path selects the second, never the
/// first.
pub proof fn lemma_last_registered_wins<H, R: Route<H>>(
    earlier: R,
    path: &'static str,
    method: Method,
    first: H,
    second: H,
)
    ensures
        (Fallback {
            route: Path { path, route: MethodRoute { method, handler: second } },
            fallback: Fallback {
                route: Path { path, route: MethodRoute { method, handler: first } },
                fallback: earlier,
            },
        }).select(method, path.spec_bytes()) == Some(Matched::Handler(second)),
{
}

} // verus!
