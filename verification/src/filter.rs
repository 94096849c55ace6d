//! Boolean predicates over a request and a path cursor, with short-circuit
//! combinators.
//!
//! A filter may consume path characters (the path filter does) but never
//! touches the cursor's segments or its trailing-separator flag.  Each
//! filter's behaviour is captured by the relation [`Filter::obeys`] between
//! the cursor before and after the call.

use vstd::prelude::*;

use crate::http::{Method, Request};
use crate::routing::{PathState, StateModel};

verus! {

/// A named boolean predicate over a request and a path cursor.
pub trait Filter: Sized {
    /// How a call relates its result and the cursor it leaves behind to the
    /// request and the cursor it found: the filter's contract.
    spec fn obeys(&self, req: Request, pre: StateModel, r: bool, post: StateModel) -> bool;

    /// Decides whether the request passes, possibly consuming path
    /// characters and capturing parameters.
    fn filter(&self, req: &Request, state: &mut PathState) -> (r: bool)
        requires
            old(state).wf(),
        ensures
            final(state).wf(),
            self.obeys(*req, old(state).model(), r, final(state).model()),
            final(state).model().parts == old(state).model().parts,
            final(state).model().end_slash == old(state).model().end_slash,
    ;
}

/// An arbitrary predicate over a request and a cursor, for inline custom
/// logic; it reads the cursor but cannot move it, and nothing is promised
/// of its verdict.
pub trait Predicate: Sized {
    /// The predicate's verdict.
    fn check(&self, req: &Request, state: &PathState) -> bool;
}

/// The combinators every filter offers.
pub trait FilterExt: Filter {
    /// Passes when both `self` and `other` pass; `other` only runs when
    /// `self` passed.
    fn and<F: Filter>(self, other: F) -> (r: And<Self, F>)
        ensures
            r.first == self,
            r.second == other,
    ;

    /// Passes when `self` or `other` passes; `other` only runs when `self`
    /// failed.
    fn or<F: Filter>(self, other: F) -> (r: Or<Self, F>)
        ensures
            r.first == self,
            r.second == other,
    ;

    /// Like [`FilterExt::and`], with a plain predicate in second position.
    fn and_then<F: Predicate>(self, fun: F) -> (r: AndThen<Self, F>)
        ensures
            r.filter == self,
            r.callback == fun,
    ;

    /// Like [`FilterExt::or`], with a plain predicate in second position.
    fn or_else<F: Predicate>(self, fun: F) -> (r: OrElse<Self, F>)
        ensures
            r.filter == self,
            r.callback == fun,
    ;
}

impl<T: Filter> FilterExt for T {
    fn and<F: Filter>(self, other: F) -> (r: And<Self, F>) {
        And { first: self, second: other }
    }

    fn or<F: Filter>(self, other: F) -> (r: Or<Self, F>) {
        Or { first: self, second: other }
    }

    fn and_then<F: Predicate>(self, fun: F) -> (r: AndThen<Self, F>) {
        AndThen { filter: self, callback: fun }
    }

    fn or_else<F: Predicate>(self, fun: F) -> (r: OrElse<Self, F>) {
        OrElse { filter: self, callback: fun }
    }
}

/// Passes exactly the requests whose method equals the chosen one; the
/// cursor is left alone.
#[derive(Clone, Copy, PartialEq, Eq, Structural)]
pub struct MethodFilter(pub Method);

impl Filter for MethodFilter {
    open spec fn obeys(&self, req: Request, pre: StateModel, r: bool, post: StateModel) -> bool {
        r == (req.method == self.0) && post == pre
    }

    fn filter(&self, req: &Request, state: &mut PathState) -> (r: bool) {
        req.method() == self.0
    }
}

/// Compares the request's scheme with the chosen one; a request without a
/// scheme gets the default verdict.  The cursor is left alone.
#[derive(Clone)]
pub struct SchemeFilter(pub String, pub bool);

impl Filter for SchemeFilter {
    open spec fn obeys(&self, req: Request, pre: StateModel, r: bool, post: StateModel) -> bool {
        r == match req.scheme {
            Some(s) => s@ == self.0@,
            None => self.1,
        } && post == pre
    }

    fn filter(&self, req: &Request, state: &mut PathState) -> (r: bool) {
        match &req.scheme {
            Some(s) => crate::text::str_eq(s.as_str(), self.0.as_str()),
            None => self.1,
        }
    }
}

/// Compares the request's host with the chosen one; a request without a
/// host gets the default verdict.  The cursor is left alone.
#[derive(Clone)]
pub struct HostFilter(pub String, pub bool);

impl Filter for HostFilter {
    open spec fn obeys(&self, req: Request, pre: StateModel, r: bool, post: StateModel) -> bool {
        r == match req.host {
            Some(h) => h@ == self.0@,
            None => self.1,
        } && post == pre
    }

    fn filter(&self, req: &Request, state: &mut PathState) -> (r: bool) {
        match &req.host {
            Some(h) => crate::text::str_eq(h.as_str(), self.0.as_str()),
            None => self.1,
        }
    }
}

/// Compares the request's port with the chosen one; a request without a
/// port gets the default verdict.  The cursor is left alone.
#[derive(Clone, Copy, PartialEq, Eq, Structural)]
pub struct PortFilter(pub u16, pub bool);

impl Filter for PortFilter {
    open spec fn obeys(&self, req: Request, pre: StateModel, r: bool, post: StateModel) -> bool {
        r == match req.port {
            Some(p) => p == self.0,
            None => self.1,
        } && post == pre
    }

    fn filter(&self, req: &Request, state: &mut PathState) -> (r: bool) {
        match req.port {
            Some(p) => p == self.0,
            None => self.1,
        }
    }
}

/// Wraps a plain predicate as a filter: the predicate reads the request and
/// the cursor but cannot move the cursor, and nothing is known of its
/// verdict.
#[derive(Clone, Copy)]
pub struct FnFilter<F: Predicate>(pub F);

impl<F: Predicate> FnFilter<F> {
    /// Wraps `f`.
    pub fn new(f: F) -> (r: FnFilter<F>)
        ensures
            r.0 == f,
    {
        FnFilter(f)
    }
}

impl<F: Predicate> Filter for FnFilter<F> {
    open spec fn obeys(&self, req: Request, pre: StateModel, r: bool, post: StateModel) -> bool {
        post == pre
    }

    fn filter(&self, req: &Request, state: &mut PathState) -> (r: bool) {
        self.0.check(req, state)
    }
}

/// Both in turn: the second filter runs, on the first one's cursor, only
/// when the first passed.
#[derive(Clone, Copy)]
pub struct And<T, U> {
    /// Runs first.
    pub first: T,
    /// Runs on the first filter's cursor when the first passed.
    pub second: U,
}

impl<T: Filter, U: Filter> Filter for And<T, U> {
    open spec fn obeys(&self, req: Request, pre: StateModel, r: bool, post: StateModel) -> bool {
        exists|r1: bool, mid: StateModel|
            {
                &&& #[trigger] self.first.obeys(req, pre, r1, mid)
                &&& if r1 {
                    self.second.obeys(req, mid, r, post)
                } else {
                    !r && post == mid
                }
            }
    }

    fn filter(&self, req: &Request, state: &mut PathState) -> (r: bool) {
        let ghost pre = old(state).model();
        let r1 = self.first.filter(req, state);
        let ghost mid = state.model();
        if !r1 {
            proof {
                assert(self.first.obeys(*req, pre, r1, mid));
            }
            false
        } else {
            let r = self.second.filter(req, state);
            proof {
                assert(self.first.obeys(*req, pre, r1, mid));
            }
            r
        }
    }
}

/// Either in turn: the second filter runs, on the first one's cursor, only
/// when the first failed.
#[derive(Clone, Copy)]
pub struct Or<T, U> {
    /// Runs first.
    pub first: T,
    /// Runs on the first filter's cursor when the first failed.
    pub second: U,
}

impl<T: Filter, U: Filter> Filter for Or<T, U> {
    open spec fn obeys(&self, req: Request, pre: StateModel, r: bool, post: StateModel) -> bool {
        exists|r1: bool, mid: StateModel|
            {
                &&& #[trigger] self.first.obeys(req, pre, r1, mid)
                &&& if !r1 {
                    self.second.obeys(req, mid, r, post)
                } else {
                    r && post == mid
                }
            }
    }

    fn filter(&self, req: &Request, state: &mut PathState) -> (r: bool) {
        let ghost pre = old(state).model();
        let r1 = self.first.filter(req, state);
        let ghost mid = state.model();
        if r1 {
            proof {
                assert(self.first.obeys(*req, pre, r1, mid));
            }
            true
        } else {
            let r = self.second.filter(req, state);
            proof {
                assert(self.first.obeys(*req, pre, r1, mid));
            }
            r
        }
    }
}

/// A filter and then a plain predicate: the predicate runs, on the filter's
/// cursor, only when the filter passed; the predicate cannot move the
/// cursor and nothing is known of its verdict.
#[derive(Clone, Copy)]
pub struct AndThen<T, F: Predicate> {
    /// Runs first.
    pub filter: T,
    /// Consulted, without moving the cursor, when the filter passed.
    pub callback: F,
}

impl<T: Filter, F: Predicate> Filter for AndThen<T, F> {
    open spec fn obeys(&self, req: Request, pre: StateModel, r: bool, post: StateModel) -> bool {
        exists|r1: bool|
            {
                &&& #[trigger] self.filter.obeys(req, pre, r1, post)
                &&& (!r1 ==> !r)
            }
    }

    fn filter(&self, req: &Request, state: &mut PathState) -> (r: bool) {
        let ghost pre = old(state).model();
        let r1 = self.filter.filter(req, state);
        let ghost mid = state.model();
        let r = if !r1 {
            false
        } else {
            self.callback.check(req, state)
        };
        proof {
            assert(self.filter.obeys(*req, pre, r1, mid));
        }
        r
    }
}

/// A filter or else a plain predicate: the predicate runs, on the filter's
/// cursor, only when the filter failed; the predicate cannot move the
/// cursor and nothing is known of its verdict.
#[derive(Clone, Copy)]
pub struct OrElse<T, F: Predicate> {
    /// Runs first.
    pub filter: T,
    /// Consulted, without moving the cursor, when the filter failed.
    pub callback: F,
}

impl<T: Filter, F: Predicate> Filter for OrElse<T, F> {
    open spec fn obeys(&self, req: Request, pre: StateModel, r: bool, post: StateModel) -> bool {
        exists|r1: bool|
            {
                &&& #[trigger] self.filter.obeys(req, pre, r1, post)
                &&& (r1 ==> r)
            }
    }

    fn filter(&self, req: &Request, state: &mut PathState) -> (r: bool) {
        let ghost pre = old(state).model();
        let r1 = self.filter.filter(req, state);
        let ghost mid = state.model();
        let r = if r1 {
            true
        } else {
            self.callback.check(req, state)
        };
        proof {
            assert(self.filter.obeys(*req, pre, r1, mid));
        }
        r
    }
}

/// A filter for requests whose scheme is `value`, with the verdict
/// `default` for requests that carry none.
pub fn scheme(value: String, default: bool) -> (f: SchemeFilter)
    ensures
        f.0 == value,
        f.1 == default,
{
    SchemeFilter(value, default)
}

/// A filter for requests whose host is `value`, with the verdict `default`
/// for requests that carry none.
pub fn host(value: String, default: bool) -> (f: HostFilter)
    ensures
        f.0 == value,
        f.1 == default,
{
    HostFilter(value, default)
}

/// A filter for requests whose port is `value`, with the verdict `default`
/// for requests that carry none.
pub fn port(value: u16, default: bool) -> (f: PortFilter)
    ensures
        f.0 == value,
        f.1 == default,
{
    PortFilter(value, default)
}

/// A filter for `GET` requests.
pub fn get() -> (f: MethodFilter)
    ensures
        f == MethodFilter(Method::GET),
{
    MethodFilter(Method::GET)
}

/// A filter for `HEAD` requests.
pub fn head() -> (f: MethodFilter)
    ensures
        f == MethodFilter(Method::HEAD),
{
    MethodFilter(Method::HEAD)
}

/// A filter for `OPTIONS` requests.
pub fn options() -> (f: MethodFilter)
    ensures
        f == MethodFilter(Method::OPTIONS),
{
    MethodFilter(Method::OPTIONS)
}

/// A filter for `POST` requests.
pub fn post() -> (f: MethodFilter)
    ensures
        f == MethodFilter(Method::POST),
{
    MethodFilter(Method::POST)
}

/// A filter for `PATCH` requests.
pub fn patch() -> (f: MethodFilter)
    ensures
        f == MethodFilter(Method::PATCH),
{
    MethodFilter(Method::PATCH)
}

/// A filter for `PUT` requests.
pub fn put() -> (f: MethodFilter)
    ensures
        f == MethodFilter(Method::PUT),
{
    MethodFilter(Method::PUT)
}

/// A filter for `DELETE` requests.
pub fn delete() -> (f: MethodFilter)
    ensures
        f == MethodFilter(Method::DELETE),
{
    MethodFilter(Method::DELETE)
}

} // verus!
