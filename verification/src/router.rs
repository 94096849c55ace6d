//! The router tree.
//!
//! A node holds ordered child nodes, filters that must all pass, a list of
//! middleware ("hoops") and an optional terminal handler.  Matching walks
//! the tree top to bottom with backtracking: children are tried in
//! declaration order, and a failed branch restores the cursor's position —
//! though not its captures — before the next sibling is tried.

use vstd::prelude::*;

use crate::filter::{Filter, HostFilter, MethodFilter, PortFilter, SchemeFilter};
use crate::http::Request;
use crate::path::PathFilter;
use crate::routing::{PathState, StateModel, ended_of};
use crate::wisp::comb_detect;

verus! {

/// Any filter a router node can hold.
pub enum FilterKind {
    /// Passes requests of one method.
    Method(MethodFilter),
    /// Passes requests of one scheme.
    Scheme(SchemeFilter),
    /// Passes requests of one host.
    Host(HostFilter),
    /// Passes requests of one port.
    Port(PortFilter),
    /// Matches and consumes a path template.
    Path(PathFilter),
}

impl FilterKind {
    /// What the filter makes of a request and a cursor: its verdict and the
    /// cursor it leaves behind.
    pub open spec fn decide(&self, req: Request, s: StateModel) -> (bool, StateModel) {
        match self {
            FilterKind::Method(f) => (req.method == f.0, s),
            FilterKind::Scheme(f) => (
                match req.scheme {
                    Some(x) => x@ == f.0@,
                    None => f.1,
                },
                s,
            ),
            FilterKind::Host(f) => (
                match req.host {
                    Some(x) => x@ == f.0@,
                    None => f.1,
                },
                s,
            ),
            FilterKind::Port(f) => (
                match req.port {
                    Some(x) => x == f.0,
                    None => f.1,
                },
                s,
            ),
            FilterKind::Path(f) => comb_detect(f.wisps(), 0, s, s),
        }
    }
}

impl Filter for FilterKind {
    open spec fn obeys(&self, req: Request, pre: StateModel, r: bool, post: StateModel) -> bool {
        (r, post) == self.decide(req, pre)
    }

    fn filter(&self, req: &Request, state: &mut PathState) -> (r: bool) {
        match self {
            FilterKind::Method(f) => f.filter(req, state),
            FilterKind::Scheme(f) => f.filter(req, state),
            FilterKind::Host(f) => f.filter(req, state),
            FilterKind::Port(f) => f.filter(req, state),
            FilterKind::Path(f) => f.filter(req, state),
        }
    }
}

/// One node of the routing tree.
pub struct Router<H> {
    /// Child nodes, in declaration order: the order decides precedence.
    pub routers: Vec<Router<H>>,
    /// The node's filters; all must pass.
    pub filters: Vec<FilterKind>,
    /// Middleware run, root to leaf, before the matched handler.
    pub hoops: Vec<H>,
    /// The node's terminal handler, if any.
    pub handler: Option<H>,
}

/// The outcome of a successful match: the middleware gathered from the root
/// down to the matching node, and that node's handler.
pub struct DetectMatched<H> {
    /// The middleware to run, in order.
    pub hoops: Vec<H>,
    /// The terminal handler.
    pub handler: H,
}

/// Runs a node's filters from index `i` on: each must pass, on the cursor
/// the one before left behind; the first failure ends the walk.
pub open spec fn filters_decide(
    fs: Seq<FilterKind>,
    i: int,
    req: Request,
    s: StateModel,
) -> (bool, StateModel)
    decreases fs.len() - i,
{
    if i < 0 || i >= fs.len() {
        (true, s)
    } else {
        let step = fs[i].decide(req, s);
        if step.0 {
            filters_decide(fs, i + 1, req, step.1)
        } else {
            (false, step.1)
        }
    }
}

/// What a node makes of a request: its filters must all pass; then its
/// children are tried in order; then, if no child matched, the node itself
/// matches when it holds a handler and the path is consumed.  A match hands
/// back the node's middleware in front of the matching descendant's, and
/// that descendant's handler.
pub open spec fn router_detect<H>(r: Router<H>, req: Request, s: StateModel) -> (
    Option<(Seq<H>, H)>,
    StateModel,
)
    decreases r, 1int,
{
    let fd = filters_decide(r.filters@, 0, req, s);
    if !fd.0 {
        (None, fd.1)
    } else {
        let cd = children_detect(r.routers@, 0, req, fd.1);
        match cd.0 {
            Some(m) => (Some((r.hoops@ + m.0, m.1)), cd.1),
            None => {
                if r.handler is Some && ended_of(cd.1) {
                    (Some((r.hoops@, r.handler.unwrap())), cd.1)
                } else {
                    (None, cd.1)
                }
            },
        }
    }
}

/// Tries a node's children from index `i` on, in declaration order: the
/// first structurally matching child wins; a failed child has the cursor's
/// position — though not its captures — restored before the next sibling
/// is tried.
pub open spec fn children_detect<H>(
    rs: Seq<Router<H>>,
    i: int,
    req: Request,
    s: StateModel,
) -> (Option<(Seq<H>, H)>, StateModel)
    decreases rs, rs.len() - i, 2int,
{
    if i < 0 || i >= rs.len() {
        (None, s)
    } else {
        let rd = router_detect(rs[i], req, s);
        match rd.0 {
            Some(m) => (Some(m), rd.1),
            None => children_detect(rs, i + 1, req, StateModel { row: s.row, col: s.col, ..rd.1 }),
        }
    }
}

/// A node's walk neither rewrites the path's segments nor the
/// trailing-separator flag.
pub proof fn lemma_router_parts<H>(r: Router<H>, req: Request, s: StateModel)
    ensures
        router_detect(r, req, s).1.parts == s.parts,
        router_detect(r, req, s).1.end_slash == s.end_slash,
    decreases r, 1int,
{
    lemma_filters_parts(r.filters@, 0, req, s);
    let fd = filters_decide(r.filters@, 0, req, s);
    if fd.0 {
        lemma_children_parts(r.routers@, 0, req, fd.1);
    }
}

/// Nor does a filter walk.
pub proof fn lemma_filters_parts(fs: Seq<FilterKind>, i: int, req: Request, s: StateModel)
    ensures
        filters_decide(fs, i, req, s).1.parts == s.parts,
        filters_decide(fs, i, req, s).1.end_slash == s.end_slash,
    decreases fs.len() - i,
{
    if 0 <= i && i < fs.len() {
        let step = fs[i].decide(req, s);
        if let FilterKind::Path(f) = fs[i] {
            crate::wisp::lemma_comb_parts(f.wisps(), 0, s, s);
        }
        if step.0 {
            lemma_filters_parts(fs, i + 1, req, step.1);
        }
    }
}

/// Nor does a walk over children.
pub proof fn lemma_children_parts<H>(rs: Seq<Router<H>>, i: int, req: Request, s: StateModel)
    ensures
        children_detect(rs, i, req, s).1.parts == s.parts,
        children_detect(rs, i, req, s).1.end_slash == s.end_slash,
    decreases rs, rs.len() - i, 2int,
{
    if 0 <= i && i < rs.len() {
        let rd = router_detect(rs[i], req, s);
        lemma_router_parts(rs[i], req, s);
        if rd.0 is None {
            lemma_children_parts(rs, i + 1, req, StateModel { row: s.row, col: s.col, ..rd.1 });
        }
    }
}

impl<H> Router<H> {
    /// An empty node: no children, no filters, no middleware, no handler.
    pub fn new() -> (r: Router<H>)
        ensures
            r.routers@ == Seq::<Router<H>>::empty(),
            r.filters@ == Seq::<FilterKind>::empty(),
            r.hoops@ == Seq::<H>::empty(),
            r.handler is None,
    {
        Router { routers: Vec::new(), filters: Vec::new(), hoops: Vec::new(), handler: None }
    }

    /// The node's children.
    pub fn routers(&self) -> (r: &Vec<Router<H>>)
        ensures
            r == &self.routers,
    {
        &self.routers
    }

    /// The node's children, to rearrange.
    pub fn routers_mut(&mut self) -> (r: &mut Vec<Router<H>>)
        ensures
            *r == old(self).routers,
            final(self).routers == *final(r),
            final(self).filters == old(self).filters,
            final(self).hoops == old(self).hoops,
            final(self).handler == old(self).handler,
    {
        &mut self.routers
    }

    /// The node's middleware.
    pub fn hoops(&self) -> (r: &Vec<H>)
        ensures
            r == &self.hoops,
    {
        &self.hoops
    }

    /// The node's middleware, to rearrange.
    pub fn hoops_mut(&mut self) -> (r: &mut Vec<H>)
        ensures
            *r == old(self).hoops,
            final(self).hoops == *final(r),
            final(self).filters == old(self).filters,
            final(self).routers == old(self).routers,
            final(self).handler == old(self).handler,
    {
        &mut self.hoops
    }

    /// The node's filters.
    pub fn filters(&self) -> (r: &Vec<FilterKind>)
        ensures
            r == &self.filters,
    {
        &self.filters
    }

    /// The node's filters, to rearrange.
    pub fn filters_mut(&mut self) -> (r: &mut Vec<FilterKind>)
        ensures
            *r == old(self).filters,
            final(self).filters == *final(r),
            final(self).routers == old(self).routers,
            final(self).hoops == old(self).hoops,
            final(self).handler == old(self).handler,
    {
        &mut self.filters
    }

    /// Adds a child after the existing ones.
    pub fn push(self, router: Router<H>) -> (r: Router<H>)
        ensures
            r.routers@ == self.routers@.push(router),
            r.filters == self.filters,
            r.hoops == self.hoops,
            r.handler == self.handler,
    {
        let mut s = self;
        s.routers.push(router);
        s
    }

    /// Adds children after the existing ones, in their order.
    pub fn append(self, others: Vec<Router<H>>) -> (r: Router<H>)
        ensures
            r.routers@ == self.routers@ + others@,
            r.filters == self.filters,
            r.hoops == self.hoops,
            r.handler == self.handler,
    {
        let mut s = self;
        let mut others = others;
        s.routers.append(&mut others);
        s
    }

    /// A node with one middleware handler.
    pub fn with_hoop(handler: H) -> (r: Router<H>)
        ensures
            r.routers@ == Seq::<Router<H>>::empty(),
            r.filters@ == Seq::<FilterKind>::empty(),
            r.hoops@ == seq![handler],
            r.handler is None,
    {
        let r = Router::new().hoop(handler);
        proof {
            assert(r.hoops@ =~= seq![handler]);
        }
        r
    }

    /// Adds a middleware handler after the existing ones.
    pub fn hoop(self, handler: H) -> (r: Router<H>)
        ensures
            r.hoops@ == self.hoops@.push(handler),
            r.filters == self.filters,
            r.routers == self.routers,
            r.handler == self.handler,
    {
        let mut s = self;
        s.hoops.push(handler);
        s
    }

    /// A node with one filter.
    pub fn with_filter(filter: FilterKind) -> (r: Router<H>)
        ensures
            r.routers@ == Seq::<Router<H>>::empty(),
            r.filters@ == seq![filter],
            r.hoops@ == Seq::<H>::empty(),
            r.handler is None,
    {
        let r = Router::new().filter(filter);
        proof {
            assert(r.filters@ =~= seq![filter]);
        }
        r
    }

    /// Adds a filter after the existing ones.
    pub fn filter(self, filter: FilterKind) -> (r: Router<H>)
        ensures
            r.filters@ == self.filters@.push(filter),
            r.routers == self.routers,
            r.hoops == self.hoops,
            r.handler == self.handler,
    {
        let mut s = self;
        s.filters.push(filter);
        s
    }

    /// A node filtering on a path template; fails exactly when the template
    /// does not compile under the built-in builders.
    pub fn with_path(path: &str) -> (r: Result<Router<H>, String>)
        ensures
            match r {
                Ok(rt) => {
                    &&& rt.routers@ == Seq::<Router<H>>::empty()
                    &&& rt.hoops@ == Seq::<H>::empty()
                    &&& rt.handler is None
                    &&& rt.filters@.len() == 1
                    &&& (rt.filters@[0] matches FilterKind::Path(f) && f.raw() == path@
                        && crate::path::template_wisps(path@, crate::path::default_bindings())
                        == Some(f.wisps()))
                },
                Err(_) => crate::path::template_wisps(
                    path@,
                    crate::path::default_bindings(),
                ) is None,
            },
    {
        match Router::new().path(path) {
            Ok(rt) => {
                proof {
                    assert(rt.filters@[0] == rt.filters@.last());
                }
                Ok(rt)
            },
            Err(e) => Err(e),
        }
    }

    /// Adds a path-template filter; fails exactly when the template does
    /// not compile under the built-in builders.
    pub fn path(self, path: &str) -> (r: Result<Router<H>, String>)
        ensures
            match r {
                Ok(rt) => {
                    &&& rt.routers == self.routers
                    &&& rt.hoops == self.hoops
                    &&& rt.handler == self.handler
                    &&& rt.filters@.len() == self.filters@.len() + 1
                    &&& rt.filters@.subrange(0, self.filters@.len() as int) == self.filters@
                    &&& (rt.filters@.last() matches FilterKind::Path(f) && f.raw() == path@
                        && crate::path::template_wisps(path@, crate::path::default_bindings())
                        == Some(f.wisps()))
                },
                Err(_) => crate::path::template_wisps(
                    path@,
                    crate::path::default_bindings(),
                ) is None,
            },
    {
        match PathFilter::new(path) {
            Ok(f) => {
                let r = self.filter(FilterKind::Path(f));
                proof {
                    assert(r.filters@.subrange(0, r.filters@.len() - 1) =~= self.filters@);
                }
                Ok(r)
            },
            Err(e) => Err(e),
        }
    }

    /// Sets the node's terminal handler.
    pub fn handle(self, handler: H) -> (r: Router<H>)
        ensures
            r.handler == Some(handler),
            r.filters == self.filters,
            r.routers == self.routers,
            r.hoops == self.hoops,
    {
        let mut s = self;
        s.handler = Some(handler);
        s
    }

    /// Adds a scheme filter.
    pub fn scheme(self, scheme: String, default: bool) -> (r: Router<H>)
        ensures
            r.filters@ == self.filters@.push(FilterKind::Scheme(SchemeFilter(scheme, default))),
            r.routers == self.routers,
            r.hoops == self.hoops,
            r.handler == self.handler,
    {
        self.filter(FilterKind::Scheme(crate::filter::scheme(scheme, default)))
    }

    /// Adds a host filter.
    pub fn host(self, host: String, default: bool) -> (r: Router<H>)
        ensures
            r.filters@ == self.filters@.push(FilterKind::Host(HostFilter(host, default))),
            r.routers == self.routers,
            r.hoops == self.hoops,
            r.handler == self.handler,
    {
        self.filter(FilterKind::Host(crate::filter::host(host, default)))
    }

    /// Adds a port filter.
    pub fn port(self, port: u16, default: bool) -> (r: Router<H>)
        ensures
            r.filters@ == self.filters@.push(FilterKind::Port(PortFilter(port, default))),
            r.routers == self.routers,
            r.hoops == self.hoops,
            r.handler == self.handler,
    {
        self.filter(FilterKind::Port(crate::filter::port(port, default)))
    }
}

impl<H> Default for Router<H> {
    /// An empty node, as [`Router::new`] builds it.
    fn default() -> (r: Router<H>)
        ensures
            r.routers@ == Seq::<Router<H>>::empty(),
            r.filters@ == Seq::<FilterKind>::empty(),
            r.hoops@ == Seq::<H>::empty(),
            r.handler is None,
    {
        Router::new()
    }
}

impl<H: Copy> Router<H> {
    /// Adds a child route for `GET` requests on `handler`.
    pub fn get(self, handler: H) -> (r: Router<H>)
        ensures
            r.routers@.len() == self.routers@.len() + 1,
            r.routers@.subrange(0, self.routers@.len() as int) == self.routers@,
            is_method_leaf(r.routers@.last(), crate::http::Method::GET, handler),
            r.filters == self.filters,
            r.hoops == self.hoops,
            r.handler == self.handler,
    {
        self.method_route(crate::filter::get(), handler)
    }

    /// Adds a child route for `POST` requests on `handler`.
    pub fn post(self, handler: H) -> (r: Router<H>)
        ensures
            r.routers@.len() == self.routers@.len() + 1,
            r.routers@.subrange(0, self.routers@.len() as int) == self.routers@,
            is_method_leaf(r.routers@.last(), crate::http::Method::POST, handler),
            r.filters == self.filters,
            r.hoops == self.hoops,
            r.handler == self.handler,
    {
        self.method_route(crate::filter::post(), handler)
    }

    /// Adds a child route for `PUT` requests on `handler`.
    pub fn put(self, handler: H) -> (r: Router<H>)
        ensures
            r.routers@.len() == self.routers@.len() + 1,
            r.routers@.subrange(0, self.routers@.len() as int) == self.routers@,
            is_method_leaf(r.routers@.last(), crate::http::Method::PUT, handler),
            r.filters == self.filters,
            r.hoops == self.hoops,
            r.handler == self.handler,
    {
        self.method_route(crate::filter::put(), handler)
    }

    /// Adds a child route for `DELETE` requests on `handler`.
    pub fn delete(self, handler: H) -> (r: Router<H>)
        ensures
            r.routers@.len() == self.routers@.len() + 1,
            r.routers@.subrange(0, self.routers@.len() as int) == self.routers@,
            is_method_leaf(r.routers@.last(), crate::http::Method::DELETE, handler),
            r.filters == self.filters,
            r.hoops == self.hoops,
            r.handler == self.handler,
    {
        self.method_route(crate::filter::delete(), handler)
    }

    /// Adds a child route for `PATCH` requests on `handler`.
    pub fn patch(self, handler: H) -> (r: Router<H>)
        ensures
            r.routers@.len() == self.routers@.len() + 1,
            r.routers@.subrange(0, self.routers@.len() as int) == self.routers@,
            is_method_leaf(r.routers@.last(), crate::http::Method::PATCH, handler),
            r.filters == self.filters,
            r.hoops == self.hoops,
            r.handler == self.handler,
    {
        self.method_route(crate::filter::patch(), handler)
    }

    /// Adds a child route for `HEAD` requests on `handler`.
    pub fn head(self, handler: H) -> (r: Router<H>)
        ensures
            r.routers@.len() == self.routers@.len() + 1,
            r.routers@.subrange(0, self.routers@.len() as int) == self.routers@,
            is_method_leaf(r.routers@.last(), crate::http::Method::HEAD, handler),
            r.filters == self.filters,
            r.hoops == self.hoops,
            r.handler == self.handler,
    {
        self.method_route(crate::filter::head(), handler)
    }

    /// Adds a child route for `OPTIONS` requests on `handler`.
    pub fn options(self, handler: H) -> (r: Router<H>)
        ensures
            r.routers@.len() == self.routers@.len() + 1,
            r.routers@.subrange(0, self.routers@.len() as int) == self.routers@,
            is_method_leaf(r.routers@.last(), crate::http::Method::OPTIONS, handler),
            r.filters == self.filters,
            r.hoops == self.hoops,
            r.handler == self.handler,
    {
        self.method_route(crate::filter::options(), handler)
    }

    /// Adds a leaf child filtering on `method` and handling with `handler`.
    fn method_route(self, method: MethodFilter, handler: H) -> (r: Router<H>)
        ensures
            r.routers@.len() == self.routers@.len() + 1,
            r.routers@.subrange(0, self.routers@.len() as int) == self.routers@,
            is_method_leaf(r.routers@.last(), method.0, handler),
            r.filters == self.filters,
            r.hoops == self.hoops,
            r.handler == self.handler,
    {
        let ghost m = method;
        let leaf = Router::with_filter(FilterKind::Method(method)).handle(handler);
        let r = self.push(leaf);
        proof {
            assert(r.routers@.subrange(0, r.routers@.len() - 1) =~= self.routers@);
            assert(leaf.filters@ =~= seq![FilterKind::Method(MethodFilter(m.0))]);
        }
        r
    }

    /// Matches the request against this subtree; see [`router_detect`].
    pub fn detect(&self, req: &Request, path_state: &mut PathState) -> (r: Option<
        DetectMatched<H>,
    >)
        requires
            old(path_state).wf(),
        ensures
            final(path_state).wf(),
            final(path_state).model() == router_detect(*self, *req, old(path_state).model()).1,
            match r {
                Some(dm) => router_detect(*self, *req, old(path_state).model()).0 == Some(
                    (dm.hoops@, dm.handler),
                ),
                None => router_detect(*self, *req, old(path_state).model()).0 is None,
            },
        decreases self,
    {
        let ghost s_in = path_state.model();
        let nf = self.filters.len();
        let mut i: usize = 0;
        while i < nf
            invariant
                s_in == old(path_state).model(),
                path_state.wf(),
                0 <= i <= nf,
                nf == self.filters@.len(),
                filters_decide(self.filters@, 0, *req, s_in) == filters_decide(
                    self.filters@,
                    i as int,
                    *req,
                    path_state.model(),
                ),
                filters_decide(self.filters@, i as int, *req, path_state.model()).0
                    == filters_decide(self.filters@, 0, *req, s_in).0,
            decreases nf - i,
        {
            let ghost mpre = path_state.model();
            let pass = self.filters[i].filter(req, path_state);
            if !pass {
                return None;
            }
            i = i + 1;
        }
        let ghost s_f = path_state.model();
        proof {
            assert(filters_decide(self.filters@, 0, *req, s_in) == (true, s_f));
        }
        let saved = path_state.cursor;
        let nc = self.routers.len();
        let mut j: usize = 0;
        while j < nc
            invariant
                s_in == old(path_state).model(),
                s_f == filters_decide(self.filters@, 0, *req, s_in).1,
                filters_decide(self.filters@, 0, *req, s_in).0,
                path_state.wf(),
                crate::routing::state_wf(s_f),
                0 <= j <= nc,
                nc == self.routers@.len(),
                saved.0 as int == s_f.row,
                saved.1 as int == s_f.col,
                path_state.model().parts == s_f.parts,
                path_state.model().end_slash == s_f.end_slash,
                path_state.model().row == s_f.row,
                path_state.model().col == s_f.col,
                children_detect(self.routers@, 0, *req, s_f) == children_detect(
                    self.routers@,
                    j as int,
                    *req,
                    path_state.model(),
                ),
            decreases nc - j,
        {
            let ghost mpre = path_state.model();
            let child = &self.routers[j];
            proof {
                broadcast use vstd::std_specs::vec::axiom_vec_index_decreases;

                assert(decreases_to!(self.routers => self.routers@[j as int]));
            }
            match child.detect(req, path_state) {
                Some(dm) => {
                    proof {
                        lemma_router_parts(self.routers@[j as int], *req, mpre);
                    }
                    let mut hoops: Vec<H> = Vec::new();
                    let mut k: usize = 0;
                    let nh = self.hoops.len();
                    while k < nh
                        invariant
                            0 <= k <= nh,
                            nh == self.hoops@.len(),
                            hoops@ == self.hoops@.subrange(0, k as int),
                        decreases nh - k,
                    {
                        hoops.push(self.hoops[k]);
                        proof {
                            assert(hoops@ =~= self.hoops@.subrange(0, k as int + 1));
                        }
                        k = k + 1;
                    }
                    let dh = dm.hoops;
                    let nd = dh.len();
                    let mut k2: usize = 0;
                    while k2 < nd
                        invariant
                            0 <= k2 <= nd,
                            nd == dh@.len(),
                            hoops@ == self.hoops@.subrange(0, self.hoops@.len() as int)
                                + dh@.subrange(0, k2 as int),
                        decreases nd - k2,
                    {
                        hoops.push(dh[k2]);
                        proof {
                            assert(hoops@ =~= self.hoops@.subrange(0, self.hoops@.len() as int)
                                + dh@.subrange(0, k2 as int + 1));
                        }
                        k2 = k2 + 1;
                    }
                    proof {
                        assert(self.hoops@.subrange(0, self.hoops@.len() as int) =~= self.hoops@);
                        assert(dh@.subrange(0, nd as int) =~= dh@);
                        assert(hoops@ =~= self.hoops@ + dh@);
                    }
                    return Some(DetectMatched { hoops, handler: dm.handler });
                },
                None => {
                    proof {
                        lemma_router_parts(self.routers@[j as int], *req, mpre);
                    }
                    path_state.cursor = saved;
                },
            }
            j = j + 1;
        }
        proof {
            assert(children_detect(self.routers@, nc as int, *req, path_state.model()) == (
                None::<(Seq<H>, H)>,
                path_state.model(),
            ));
        }
        match &self.handler {
            Some(h) => {
                if path_state.ended() {
                    let mut hoops: Vec<H> = Vec::new();
                    let mut k: usize = 0;
                    let nh = self.hoops.len();
                    while k < nh
                        invariant
                            0 <= k <= nh,
                            nh == self.hoops@.len(),
                            hoops@ == self.hoops@.subrange(0, k as int),
                        decreases nh - k,
                    {
                        hoops.push(self.hoops[k]);
                        proof {
                            assert(hoops@ =~= self.hoops@.subrange(0, k as int + 1));
                        }
                        k = k + 1;
                    }
                    proof {
                        assert(hoops@ =~= self.hoops@);
                    }
                    Some(DetectMatched { hoops, handler: *h })
                } else {
                    None
                }
            },
            None => None,
        }
    }
}

/// Whether a node is the leaf the method helpers add: one method filter, no
/// children, no middleware, the given handler.
pub open spec fn is_method_leaf<H>(r: Router<H>, method: crate::http::Method, handler: H) -> bool {
    &&& r.routers@ == Seq::<Router<H>>::empty()
    &&& r.filters@ == seq![FilterKind::Method(MethodFilter(method))]
    &&& r.hoops@ == Seq::<H>::empty()
    &&& r.handler == Some(handler)
}

} // verus!
