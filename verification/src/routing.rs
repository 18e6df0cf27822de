//! The HTTP methods and the routing table: one radix tree per method,
//! mapping path templates with `{name}` captures to registered handler
//! ids. The trees come from the `matchit` crate behind trusted wrappers;
//! everything around them is verified against those contracts.
use vstd::prelude::*;

use crate::first_line::{verb_delete, verb_get, verb_head, verb_patch, verb_post, verb_put};
use crate::message::Request;
use vstd::string::StringSliceAdditionalSpecFns;

verus! {

/// The HTTP methods the server distinguishes.
#[derive(Clone, Copy, Debug, PartialEq, Eq, Hash, Structural)]
pub enum HttpVerb {
    GET,
    POST,
    PUT,
    PATCH,
    DELETE,
    OPTIONS,
    HEAD,
}

/// The verb a parsed method token stands for, HEAD included as its own
/// member of the closed enum; anything unrecognized maps to OPTIONS,
/// which the grammar only admits for the OPTIONS token itself.
pub open spec fn spec_verb_of(m: Seq<u8>) -> HttpVerb {
    if m == verb_get() {
        HttpVerb::GET
    } else if m == verb_post() {
        HttpVerb::POST
    } else if m == verb_put() {
        HttpVerb::PUT
    } else if m == verb_patch() {
        HttpVerb::PATCH
    } else if m == verb_delete() {
        HttpVerb::DELETE
    } else if m == verb_head() {
        HttpVerb::HEAD
    } else {
        HttpVerb::OPTIONS
    }
}

/// Maps a method token to its verb.
pub fn verb_of(m: &[u8]) -> (r: HttpVerb)
    ensures
        r == spec_verb_of(m@),
{
    let get_a: [u8; 3] = [71, 69, 84];
    let post_a: [u8; 4] = [80, 79, 83, 84];
    let put_a: [u8; 3] = [80, 85, 84];
    let patch_a: [u8; 5] = [80, 65, 84, 67, 72];
    let delete_a: [u8; 6] = [68, 69, 76, 69, 84, 69];
    let head_a: [u8; 4] = [72, 69, 65, 68];
    proof {
        assert(get_a@ =~= verb_get());
        assert(post_a@ =~= verb_post());
        assert(put_a@ =~= verb_put());
        assert(patch_a@ =~= verb_patch());
        assert(delete_a@ =~= verb_delete());
        assert(head_a@ =~= verb_head());
    }
    if crate::bytes::bytes_eq(m, get_a.as_slice()) {
        HttpVerb::GET
    } else if crate::bytes::bytes_eq(m, post_a.as_slice()) {
        HttpVerb::POST
    } else if crate::bytes::bytes_eq(m, put_a.as_slice()) {
        HttpVerb::PUT
    } else if crate::bytes::bytes_eq(m, patch_a.as_slice()) {
        HttpVerb::PATCH
    } else if crate::bytes::bytes_eq(m, delete_a.as_slice()) {
        HttpVerb::DELETE
    } else if crate::bytes::bytes_eq(m, head_a.as_slice()) {
        HttpVerb::HEAD
    } else {
        HttpVerb::OPTIONS
    }
}

/// Why a route could not be registered or resolved.
#[derive(Clone, Copy, Debug, PartialEq, Eq, Structural)]
pub enum RoutingError {
    NotFound,
    RouteConflict,
    InvalidRoute,
}

#[verifier::external_type_specification]
#[verifier::external_body]
#[verifier::reject_recursive_types(T)]
pub struct ExRouter<T>(matchit::Router<T>);

/// The handler ids a router holds. Only `router_insert` grows this set,
/// and `router_at` hands back members of it.
pub uninterp spec fn router_values(r: matchit::Router<usize>) -> Set<int>;

/// What matching `path` against `r` yields: the handler id and the
/// captured (name, value) pairs. Matching is a pure function of the
/// router and the path.
pub uninterp spec fn router_at_spec(r: matchit::Router<usize>, path: Seq<u8>) -> Option<
    (int, Seq<(Seq<u8>, Seq<u8>)>),
>;

/// Whether inserting `route` into `r` succeeds. matchit decides this from
/// the router and the route alone, so the outcome has a name the
/// contracts can share.
pub uninterp spec fn router_insert_ok(r: matchit::Router<usize>, route: Seq<char>) -> bool;

pub const LBRACE: u8 = 123;

/// A route this library hands to the tree: ASCII, with at most 25 `{`
/// bytes. The bound keeps the route clear of the capture-renaming limit
/// inside matchit's insert, counting every `{` (escaped ones included),
/// so it is if anything stricter than the limit it guards.
pub open spec fn route_admissible(route: &str) -> bool {
    vstd::string::is_ascii(route) && crate::bytes::count_byte(route.spec_bytes(), LBRACE) <= 25
}

/// View of a list of captured (name, value) pairs.
pub open spec fn pairs_view(v: Seq<(Vec<u8>, Vec<u8>)>) -> Seq<(Seq<u8>, Seq<u8>)> {
    v.map_values(|e: (Vec<u8>, Vec<u8>)| (e.0@, e.1@))
}

/// Relies on matchit::Router::new: a fresh router holds no routes, so it
/// matches no path and holds no values.
#[verifier::external_body]
fn router_new() -> (r: matchit::Router<usize>)
    ensures
        router_values(r) == Set::<int>::empty(),
        forall|p: Seq<u8>| #[trigger] router_at_spec(r, p) is None,
{
    matchit::Router::new()
}

/// Relies on matchit::Router::insert. Whether insertion succeeds depends
/// on the router and the route alone (`router_insert_ok`). On success the
/// value is stored under the route; every error return happens before the
/// value is stored, and the structural splits insert may have made keep
/// every stored route, so on failure the stored values and all matching
/// are unchanged. The `requires` keeps the route clear of insert's two
/// panic sources: the per-route capture-renaming limit, and the
/// byte-offset route truncation in conflict reporting, which is always
/// valid on an ASCII route.
#[verifier::external_body]
fn router_insert(r: &mut matchit::Router<usize>, route: &str, value: usize) -> (res: Result<
    (),
    RoutingError,
>)
    requires
        route_admissible(route),
    ensures
        res is Ok <==> router_insert_ok(*old(r), route@),
        match res {
            Ok(()) => router_values(*final(r)) == router_values(*old(r)).insert(value as int),
            Err(e) => (e == RoutingError::RouteConflict || e == RoutingError::InvalidRoute)
                && router_values(*final(r)) == router_values(*old(r)) && (forall|p: Seq<u8>|
                #[trigger] router_at_spec(*final(r), p) == router_at_spec(*old(r), p)),
        },
{
    match r.insert(route, value) {
        Ok(()) => Ok(()),
        Err(matchit::InsertError::Conflict { .. }) => Err(RoutingError::RouteConflict),
        Err(_) => Err(RoutingError::InvalidRoute),
    }
}

/// Relies on matchit::Router::at: a match hands back a value inserted
/// earlier together with the captured parameters, and the outcome is a
/// function of the router and the path alone.
#[verifier::external_body]
fn router_at(r: &matchit::Router<usize>, path: &[u8]) -> (res: Option<
    (usize, Vec<(Vec<u8>, Vec<u8>)>),
>)
    ensures
        match res {
            Some(p) => router_at_spec(*r, path@) == Some((p.0 as int, pairs_view(p.1@)))
                && router_values(*r).contains(p.0 as int),
            None => router_at_spec(*r, path@) is None,
        },
{
    let s = core::str::from_utf8(path).ok()?;
    let m = r.at(s).ok()?;
    let ps = m.params.iter().map(|(k, v)| (k.as_bytes().to_vec(), v.as_bytes().to_vec())).collect();
    Some((*m.value, ps))
}

/// One radix tree per method; values are handler ids that index the
/// caller's handler table.
pub struct RoutingMap {
    get: matchit::Router<usize>,
    post: matchit::Router<usize>,
    put: matchit::Router<usize>,
    patch: matchit::Router<usize>,
    delete: matchit::Router<usize>,
    options: matchit::Router<usize>,
    head: matchit::Router<usize>,
    handler_count: usize,
}

impl RoutingMap {
    /// The tree serving `verb`.
    pub closed spec fn router_view(&self, verb: HttpVerb) -> matchit::Router<usize> {
        match verb {
            HttpVerb::GET => self.get,
            HttpVerb::POST => self.post,
            HttpVerb::PUT => self.put,
            HttpVerb::PATCH => self.patch,
            HttpVerb::DELETE => self.delete,
            HttpVerb::OPTIONS => self.options,
            HttpVerb::HEAD => self.head,
        }
    }

    /// How many handlers have been registered.
    pub closed spec fn count_view(&self) -> int {
        self.handler_count as int
    }

    /// Every id any tree can hand out indexes the handler table.
    pub open spec fn wf(&self) -> bool {
        forall|verb: HttpVerb, v: int|
            #[trigger] router_values(self.router_view(verb)).contains(v) ==> 0 <= v
                < self.count_view()
    }

    pub fn new() -> (r: RoutingMap)
        ensures
            r.wf(),
            r.count_view() == 0,
    {
        let r = RoutingMap {
            get: router_new(),
            post: router_new(),
            put: router_new(),
            patch: router_new(),
            delete: router_new(),
            options: router_new(),
            head: router_new(),
            handler_count: 0,
        };
        r
    }

    /// Registers a route for `verb` and hands back the id the caller must
    /// store its handler under. Registration succeeds exactly when the
    /// route is admissible and the tree accepts it; a failed registration
    /// assigns no id and leaves every lookup, in every tree, as it was.
    pub fn add_handler(&mut self, http_verb: HttpVerb, route: &str) -> (r: Result<
        usize,
        RoutingError,
    >)
        requires
            old(self).wf(),
            old(self).count_view() < usize::MAX,
        ensures
            final(self).wf(),
            r is Ok <==> route_admissible(route) && router_insert_ok(
                old(self).router_view(http_verb),
                route@,
            ),
            match r {
                Ok(id) => id as int == old(self).count_view() && final(self).count_view() == old(
                    self,
                ).count_view() + 1 && router_values(final(self).router_view(http_verb))
                    == router_values(old(self).router_view(http_verb)).insert(id as int),
                Err(e) => (e == RoutingError::RouteConflict || e == RoutingError::InvalidRoute)
                    && final(self).count_view() == old(self).count_view() && (forall|
                    v2: HttpVerb,
                    p: Seq<u8>,
                |
                    #[trigger] router_at_spec(final(self).router_view(v2), p) == router_at_spec(
                        old(self).router_view(v2),
                        p,
                    )) && (forall|v2: HttpVerb|
                    router_values(#[trigger] final(self).router_view(v2)) == router_values(
                        old(self).router_view(v2),
                    )),
            },
            forall|v2: HttpVerb| v2 != http_verb ==> final(self).router_view(v2) == old(
                self,
            ).router_view(v2),
    {
        if !route.is_ascii() {
            return Err(RoutingError::InvalidRoute);
        }
        let braces = crate::bytes::count_byte_occurrences(route.as_bytes(), LBRACE);
        if braces > 25 {
            return Err(RoutingError::InvalidRoute);
        }
        let id = self.handler_count;
        let res = match http_verb {
            HttpVerb::GET => router_insert(&mut self.get, route, id),
            HttpVerb::POST => router_insert(&mut self.post, route, id),
            HttpVerb::PUT => router_insert(&mut self.put, route, id),
            HttpVerb::PATCH => router_insert(&mut self.patch, route, id),
            HttpVerb::DELETE => router_insert(&mut self.delete, route, id),
            HttpVerb::OPTIONS => router_insert(&mut self.options, route, id),
            HttpVerb::HEAD => router_insert(&mut self.head, route, id),
        };
        match res {
            Ok(()) => {
                self.handler_count = self.handler_count + 1;
                proof {
                    assert forall|verb: HttpVerb, v: int|
                        #[trigger] router_values(self.router_view(verb)).contains(v) implies 0 <= v
                        < self.count_view() by {
                        if verb == http_verb {
                            assert(router_values(self.router_view(verb)) == router_values(
                                old(self).router_view(http_verb),
                            ).insert(id as int));
                        } else {
                            assert(self.router_view(verb) == old(self).router_view(verb));
                        }
                    }
                }
                Ok(id)
            },
            Err(e) => {
                proof {
                    assert forall|verb: HttpVerb, v: int|
                        #[trigger] router_values(self.router_view(verb)).contains(v) implies 0 <= v
                        < self.count_view() by {
                        assert(router_values(self.router_view(verb)) == router_values(
                            old(self).router_view(verb),
                        ));
                    }
                }
                Err(e)
            },
        }
    }

    /// Resolves `path` for `verb`: the registered handler id and the
    /// captured parameters, or nothing when no route matches.
    pub fn get_handler(&self, http_verb: HttpVerb, path: &[u8]) -> (r: Option<
        (usize, Vec<(Vec<u8>, Vec<u8>)>),
    >)
        ensures
            match r {
                Some(p) => router_at_spec(self.router_view(http_verb), path@) == Some(
                    (p.0 as int, pairs_view(p.1@)),
                ) && (self.wf() ==> p.0 < self.count_view()),
                None => router_at_spec(self.router_view(http_verb), path@) is None,
            },
    {
        let tree = match http_verb {
            HttpVerb::GET => &self.get,
            HttpVerb::POST => &self.post,
            HttpVerb::PUT => &self.put,
            HttpVerb::PATCH => &self.patch,
            HttpVerb::DELETE => &self.delete,
            HttpVerb::OPTIONS => &self.options,
            HttpVerb::HEAD => &self.head,
        };
        router_at(tree, path)
    }

    /// The tree serving `verb`, for callers that re-run a lookup.
    pub fn get_method_router(&self, http_verb: HttpVerb) -> (r: &matchit::Router<usize>)
        ensures
            *r == self.router_view(http_verb),
    {
        match http_verb {
            HttpVerb::GET => &self.get,
            HttpVerb::POST => &self.post,
            HttpVerb::PUT => &self.put,
            HttpVerb::PATCH => &self.patch,
            HttpVerb::DELETE => &self.delete,
            HttpVerb::OPTIONS => &self.options,
            HttpVerb::HEAD => &self.head,
        }
    }
}

/// A type-erased request handler: what the caller's dispatch table
/// stores under the ids this module hands out. The server's registration
/// surface wraps user functions in values of this trait.
pub trait Service: Send + Sync {
    fn call(&self, request: &Request, routing: &RoutingMap) -> crate::response::Response;
}

/// What the server does with a parsed request.
pub enum Dispatch {
    Preflight,
    NotFound,
    Handler(usize, Vec<(Vec<u8>, Vec<u8>)>),
}

/// The dispatch decision: OPTIONS requests get the fixed preflight
/// answer; otherwise the request path is resolved in the method's tree,
/// yielding the handler id and captures, or not-found.
pub fn dispatch_request(routing: &RoutingMap, request: &Request) -> (r: Dispatch)
    requires
        routing.wf(),
    ensures
        match r {
            Dispatch::Preflight => spec_verb_of(request.method_view()) == HttpVerb::OPTIONS,
            Dispatch::NotFound => spec_verb_of(request.method_view()) != HttpVerb::OPTIONS
                && router_at_spec(
                routing.router_view(spec_verb_of(request.method_view())),
                crate::message::spec_request_path(request.target_view()),
            ) is None,
            Dispatch::Handler(id, params) => spec_verb_of(request.method_view())
                != HttpVerb::OPTIONS && router_at_spec(
                routing.router_view(spec_verb_of(request.method_view())),
                crate::message::spec_request_path(request.target_view()),
            ) == Some((id as int, pairs_view(params@))) && id < routing.count_view(),
        },
{
    let verb = request.request_method();
    if verb == HttpVerb::OPTIONS {
        return Dispatch::Preflight;
    }
    let path = request.request_path();
    match routing.get_handler(verb, path) {
        Some((id, params)) => Dispatch::Handler(id, params),
        None => Dispatch::NotFound,
    }
}

} // verus!
