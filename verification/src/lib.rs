//! Request-routing core of an HTTP server framework.
//!
//! Given an incoming request's path, method, host, scheme and port, the
//! library selects an ordered chain of middleware ("hoops") and a terminal
//! handler, or reports that no route matches.  The pieces, from leaf to root:
//!
//! * [`routing::PathState`] — a cursor over the segmented request path;
//! * filters — boolean predicates over a request and a path cursor, with
//!   `And`/`Or`/`AndThen`/`OrElse` combinators;
//! * the path pattern engine — compiles a template string such as
//!   `users/<id>/articles/<aid>` into a sequence of segment matchers;
//! * [`router::Router`] — a tree of nodes matched by recursive,
//!   backtracking descent;
//! * [`routing::FlowCtrl`] — runs the middleware-and-handler chain of a
//!   successful match with short-circuit and cancellation semantics.

use vstd::prelude::*;

pub mod depot;
pub mod extract;
pub mod filter;
pub mod http;
pub mod laws;
pub mod path;
pub mod range;
pub mod router;
pub mod routing;
pub mod text;
pub mod views;
pub mod wisp;
pub mod writer;

verus! {

/// A general error: a human-readable description of what went wrong.
#[derive(Debug)]
pub enum Error {
    Other(String),
}

impl Error {
    /// Wraps a description in an `Error`.
    pub fn other(msg: String) -> (e: Error)
        ensures
            e == Error::Other(msg),
    {
        Error::Other(msg)
    }

    /// The error's description.
    pub fn message(&self) -> (m: &String)
        ensures
            *self == Error::Other(*m),
    {
        match self {
            Error::Other(m) => m,
        }
    }
}

} // verus!
