//! The method-aware router: one matchit tree per HTTP method, each mapping full
//! routes `{api_prefix}/{version}/{route}` to the index of their endpoint.

use vstd::prelude::*;

use crate::endpoint::{Endpoint, HttpMethod, opt_view};
use crate::login::LOGIN_ENDPOINT_ID;
use crate::execute::split_on;
use crate::params::pairs_view;
use crate::text::{from_chars, to_chars, trim_end_by, trim_slash_chars, trim_slashes, trim_start_by};

verus! {

#[verifier::external_type_specification]
#[verifier::external_body]
#[verifier::reject_recursive_types(T)]
pub struct ExRouter<T>(matchit::Router<T>);

#[verifier::external_type_specification]
#[verifier::external_body]
pub struct ExInsertError(matchit::InsertError);

/// The routes a matchit router holds, each with its value.
pub uninterp spec fn routes_of(r: matchit::Router<usize>) -> Map<Seq<char>, usize>;

/// A route without `{` or `}`: matchit reads it as static text.
pub open spec fn is_static_route(s: Seq<char>) -> bool {
    forall|i: int| 0 <= i < s.len() ==> s[i] != '{' && s[i] != '}'
}

/// The number of `{` in `s`.
pub open spec fn brace_count(s: Seq<char>) -> nat
    decreases s.len(),
{
    if s.len() == 0 {
        0
    } else {
        brace_count(s.drop_last()) + if s.last() == '{' {
            1nat
        } else {
            0nat
        }
    }
}

/// The most parameters a matchit route may have: matchit panics from the 26th on.
pub const MAX_ROUTE_PARAMS: usize = 25;

/// The name of a route segment `{name}` that matchit reads as a named parameter.
pub open spec fn param_name(seg: Seq<char>) -> Option<Seq<char>> {
    if seg.len() >= 3 && seg[0] == '{' && seg.last() == '}' && forall|i: int|
        1 <= i < seg.len() - 1 ==> seg[i] != '{' && seg[i] != '}' && seg[i] != '/' && seg[i]
            != '*' {
        Some(seg.subrange(1, seg.len() - 1))
    } else {
        None
    }
}

/// A route whose every `/`-separated segment is static text or a whole `{name}`.
pub open spec fn simple_route(p: Seq<char>) -> bool {
    forall|i: int|
        0 <= i < split_on(p, '/').len() ==> is_static_route(#[trigger] split_on(p, '/')[i])
            || param_name(split_on(p, '/')[i]) is Some
}

/// The captures of route segments `rs` on path segments `ps`: a static segment must
/// equal its path segment, a `{name}` takes a non-empty one; none when they differ.
pub open spec fn segment_captures(rs: Seq<Seq<char>>, ps: Seq<Seq<char>>) -> Option<
    Seq<(Seq<char>, Seq<char>)>,
>
    decreases rs.len(),
{
    if rs.len() != ps.len() {
        None
    } else if rs.len() == 0 {
        Some(Seq::empty())
    } else {
        match segment_captures(rs.drop_last(), ps.drop_last()) {
            None => None,
            Some(c) => match param_name(rs.last()) {
                Some(n) => if ps.last().len() > 0 {
                    Some(c.push((n, ps.last())))
                } else {
                    None
                },
                None => if rs.last() == ps.last() {
                    Some(c)
                } else {
                    None
                },
            },
        }
    }
}

/// The captures of `route` on `path`, when the path matches the route.
pub open spec fn route_captures(route: Seq<char>, path: Seq<char>) -> Option<
    Seq<(Seq<char>, Seq<char>)>,
> {
    segment_captures(split_on(route, '/'), split_on(path, '/'))
}

/// Every route of `m` is simple.
pub open spec fn all_simple(m: Map<Seq<char>, usize>) -> bool {
    forall|p: Seq<char>| #[trigger] m.contains_key(p) ==> simple_route(p)
}

/// `q` is the only route of `m` that `path` matches.
pub open spec fn only_match(m: Map<Seq<char>, usize>, q: Seq<char>, path: Seq<char>) -> bool {
    &&& m.contains_key(q)
    &&& route_captures(q, path) is Some
    &&& forall|p: Seq<char>| #[trigger] m.contains_key(p) && p != q ==> route_captures(p, path) is None
}

/// Relies on `matchit::Router::new`: a router without routes.
#[verifier::external_body]
fn new_router() -> (r: matchit::Router<usize>)
    ensures
        routes_of(r).is_empty(),
{
    matchit::Router::new()
}

/// Relies on `matchit::Router::insert`: a route already present is refused with a
/// conflict, a route without braces that is not present is accepted, and on success
/// the router holds `route` with `value` besides its routes. matchit panics on a route
/// with more than `MAX_ROUTE_PARAMS` parameters, which `requires` leaves out.
#[verifier::external_body]
fn insert_route(r: &mut matchit::Router<usize>, route: String, value: usize) -> (res: Result<
    (),
    matchit::InsertError,
>)
    requires
        brace_count(route@) <= MAX_ROUTE_PARAMS,
    ensures
        is_static_route(route@) && !routes_of(*old(r)).contains_key(route@) ==> res is Ok,
        res is Ok ==> !routes_of(*old(r)).contains_key(route@) && routes_of(*final(r)) == routes_of(
            *old(r),
        ).insert(route@, value),
{
    r.insert(route, value)
}

/// Relies on `matchit::Router::at`: a match carries the value of one of the router's
/// routes and the captured parameters in route order; a path equal to a static route
/// of the router matches that route, without parameters (static routes take priority);
/// in a router of simple routes, a path that exactly one route matches finds that
/// route, with its captures (a named parameter takes a whole non-empty segment).
#[verifier::external_body]
fn route_at(tree: &matchit::Router<usize>, path: &str) -> (res: Option<RouteHit>)
    ensures
        res matches Some(h) ==> exists|p: Seq<char>|
            routes_of(*tree).contains_key(p) && routes_of(*tree)[p] == h.index,
        res is None ==> !(routes_of(*tree).contains_key(path@) && is_static_route(path@)),
        res matches Some(h) ==> (routes_of(*tree).contains_key(path@) && is_static_route(path@)
            ==> h.index == routes_of(*tree)[path@] && h.params@.len() == 0),
        res is None ==> !(all_simple(routes_of(*tree)) && exists|q: Seq<char>|
            only_match(routes_of(*tree), q, path@)),
        res matches Some(h) ==> forall|q: Seq<char>|
            all_simple(routes_of(*tree)) && #[trigger] only_match(routes_of(*tree), q, path@) ==> (
            h.index == routes_of(*tree)[q] && pairs_view(h.params@) == route_captures(
                q,
                path@,
            ).unwrap()),
{
    match tree.at(path) {
        Ok(m) => Some(
            RouteHit {
                index: *m.value,
                params: m.params.iter().map(|(k, v)| (k.to_string(), v.to_string())).collect(),
            },
        ),
        Err(_) => None,
    }
}

/// A matched route: the endpoint's index and the captured path parameters, in
/// route order.
#[derive(Debug)]
pub struct RouteHit {
    pub index: usize,
    pub params: Vec<(String, String)>,
}

/// `a/b`, or the one that is not empty.
pub open spec fn join_path(a: Seq<char>, b: Seq<char>) -> Seq<char> {
    if a.len() == 0 {
        b
    } else if b.len() == 0 {
        a
    } else {
        a + seq!['/'] + b
    }
}

/// The full route of an endpoint under `prefix`: prefix, version and route, each
/// without surrounding slashes, joined by `/`.
pub open spec fn full_route(prefix: Seq<char>, e: Endpoint) -> Seq<char> {
    let version = match opt_view(e.version) {
        Some(v) => trim_slashes(v),
        None => Seq::empty(),
    };
    join_path(join_path(trim_slashes(prefix), version), trim_slashes(e.route@))
}

fn join_path_chars(a: Vec<char>, b: &Vec<char>) -> (r: Vec<char>)
    ensures
        r@ == join_path(a@, b@),
{
    if a.len() == 0 {
        b.clone()
    } else if b.len() == 0 {
        a
    } else {
        let mut r = a;
        r.push('/');
        let mut bb = b.clone();
        r.append(&mut bb);
        r
    }
}

/// The full route of `e` under `prefix`.
pub fn endpoint_full_route(prefix: &str, e: &Endpoint) -> (r: String)
    ensures
        r@ == full_route(prefix@, *e),
{
    let p = trim_slash_chars(&to_chars(prefix));
    let v = match &e.version {
        Some(v) => trim_slash_chars(&to_chars(v.as_str())),
        None => Vec::new(),
    };
    let head = join_path_chars(p, &v);
    let route = trim_slash_chars(&to_chars(e.route.as_str()));
    let full = join_path_chars(head, &route);
    from_chars(full.as_slice())
}

/// The synthetic login endpoint: `POST {api_prefix}/internal/login`, capturing every
/// parameter, without an action (the runtime answers it), open to all.
pub open spec fn is_login_endpoint(e: Endpoint) -> bool {
    &&& e.id@ == LOGIN_ENDPOINT_ID@
    &&& e.route@ == "login"@
    &&& e.version matches Some(v) && v@ == "internal"@
    &&& e.method == HttpMethod::Post
    &&& e.target_database is None
    &&& e.execute is None
    &&& e.description is Some
    &&& e.tags@.len() == 0
    &&& e.query_params@.len() == 0
    &&& e.body_params@.len() == 0
    &&& !e.require_auth
    &&& e.allowed_roles@.len() == 0
    &&& e.capture_all_params
    &&& !e.inject_user_id
    &&& !e.deprecated
    &&& e.auto_generated
}

/// The full route of the login endpoint under `prefix`.
pub open spec fn login_route(prefix: Seq<char>) -> Seq<char> {
    join_path(join_path(trim_slashes(prefix), "internal"@), "login"@)
}

/// The synthetic login endpoint.
pub fn login_endpoint() -> (e: Endpoint)
    ensures
        is_login_endpoint(e),
{
    Endpoint {
        id: String::from_str(LOGIN_ENDPOINT_ID),
        route: String::from_str("login"),
        version: Some(String::from_str("internal")),
        method: HttpMethod::Post,
        target_database: None,
        execute: None,
        description: Some(
            String::from_str(
                "Login a user capturing all parameters and forwarding them to the authentication method.",
            ),
        ),
        tags: Vec::new(),
        query_params: Vec::new(),
        body_params: Vec::new(),
        require_auth: false,
        allowed_roles: Vec::new(),
        capture_all_params: true,
        inject_user_id: false,
        deprecated: false,
        auto_generated: true,
    }
}

/// Endpoints whose full routes are static and distinct per method.
pub open spec fn routable_target(prefix: Seq<char>, eps: Seq<Endpoint>) -> bool {
    &&& forall|i: int| 0 <= i < eps.len() ==> is_static_route(full_route(prefix, #[trigger] eps[i]))
    &&& forall|i: int, j: int|
        0 <= i < eps.len() && 0 <= j < eps.len() && i != j && eps[i].method == eps[j].method
            ==> full_route(prefix, #[trigger] eps[i]) != full_route(prefix, #[trigger] eps[j])
}

/// Endpoints a router can always be built from: every full route static and distinct
/// among the endpoints of its method, and likewise the login route when it is added.
pub open spec fn routable(prefix: Seq<char>, eps: Seq<Endpoint>, with_login: bool) -> bool {
    &&& routable_target(prefix, eps)
    &&& with_login ==> is_static_route(login_route(prefix)) && forall|i: int|
        0 <= i < eps.len() && (#[trigger] eps[i]).method == HttpMethod::Post ==> full_route(
            prefix,
            eps[i],
        ) != login_route(prefix)
}

proof fn lemma_login_route(prefix: Seq<char>, e: Endpoint)
    requires
        is_login_endpoint(e),
    ensures
        full_route(prefix, e) == login_route(prefix),
{
    reveal_strlit("internal");
    reveal_strlit("login");
    let a = "internal"@;
    let b = "login"@;
    assert(trim_start_by(a, true) == a);
    assert(trim_end_by(a, true) == a);
    assert(trim_start_by(b, true) == b);
    assert(trim_end_by(b, true) == b);
}

proof fn lemma_routable_target(prefix: Seq<char>, given: Seq<Endpoint>, with_login: bool, target: Seq<Endpoint>)
    requires
        routable(prefix, given, with_login),
        with_login ==> target == given.push(target.last()) && is_login_endpoint(target.last()),
        !with_login ==> target == given,
    ensures
        routable_target(prefix, target),
{
    if with_login {
        let n = given.len() as int;
        lemma_login_route(prefix, target.last());
        assert forall|i: int| 0 <= i < target.len() implies is_static_route(
            full_route(prefix, #[trigger] target[i]),
        ) by {
            if i < n {
                assert(target[i] == given[i]);
            }
        }
        assert forall|i: int, j: int|
            0 <= i < target.len() && 0 <= j < target.len() && i != j && target[i].method
                == target[j].method implies full_route(prefix, #[trigger] target[i]) != full_route(
            prefix,
            #[trigger] target[j],
        ) by {
            if i < n {
                assert(target[i] == given[i]);
            }
            if j < n {
                assert(target[j] == given[j]);
            }
        }
    }
}

proof fn lemma_static_no_brace(s: Seq<char>)
    ensures
        is_static_route(s) ==> brace_count(s) == 0,
    decreases s.len(),
{
    if s.len() > 0 {
        lemma_static_no_brace(s.drop_last());
        if is_static_route(s) {
            assert(is_static_route(s.drop_last())) by {
                assert forall|i: int| 0 <= i < s.drop_last().len() implies s.drop_last()[i] != '{'
                    && s.drop_last()[i] != '}' by {
                    assert(s.drop_last()[i] == s[i]);
                }
            }
            assert(s.last() == s[s.len() - 1]);
        }
    }
}

/// The number of `{` in `s`.
fn count_braces(s: &String) -> (r: usize)
    ensures
        r == brace_count(s@),
{
    let v = to_chars(s.as_str());
    let mut c: usize = 0;
    let mut i: usize = 0;
    proof {
        assert(v@.subrange(0, 0) =~= Seq::<char>::empty());
    }
    while i < v.len()
        invariant
            i <= v@.len(),
            v@ == s@,
            c <= i,
            c == brace_count(v@.subrange(0, i as int)),
        decreases v@.len() - i,
    {
        proof {
            assert(v@.subrange(0, i as int + 1).drop_last() =~= v@.subrange(0, i as int));
        }
        if v[i] == '{' {
            c = c + 1;
        }
        i = i + 1;
    }
    assert(v@.subrange(0, v@.len() as int) =~= v@);
    c
}

/// Why the router could not be built.
#[derive(Debug)]
pub enum RouterError {
    /// A full route has more braces than matchit takes parameters.
    TooManyParams { route: String },
    /// matchit refused the full route of an endpoint (a conflict or an invalid route).
    Insert { route: String, reason: matchit::InsertError },
}

/// Why a lookup found no endpoint.
#[derive(Debug, Clone, Copy, PartialEq, Eq)]
pub enum RouteMiss {
    /// No endpoint answers the method.
    NoMethod,
    /// No route of the method matches the path.
    NoRoute,
}

/// The endpoints of a build and one route tree per method.
pub struct EndpointRouter {
    prefix: String,
    endpoints: Vec<Endpoint>,
    get: matchit::Router<usize>,
    post: matchit::Router<usize>,
    put: matchit::Router<usize>,
    delete: matchit::Router<usize>,
    unknown: matchit::Router<usize>,
}

impl EndpointRouter {
    pub closed spec fn spec_prefix(&self) -> Seq<char> {
        self.prefix@
    }

    pub closed spec fn spec_endpoints(&self) -> Seq<Endpoint> {
        self.endpoints@
    }

    /// The route tree of `m`.
    pub closed spec fn tree(&self, m: HttpMethod) -> matchit::Router<usize> {
        match m {
            HttpMethod::Get => self.get,
            HttpMethod::Post => self.post,
            HttpMethod::Put => self.put,
            HttpMethod::Delete => self.delete,
            HttpMethod::Unknown => self.unknown,
        }
    }

    /// Each tree maps the full route of each endpoint of its method to that
    /// endpoint's index, and holds nothing else.
    pub open spec fn well_formed(&self) -> bool {
        &&& forall|m: HttpMethod, k: Seq<char>|
            #[trigger] routes_of(self.tree(m)).contains_key(k) ==> {
                let i = routes_of(self.tree(m))[k] as int;
                &&& 0 <= i < self.spec_endpoints().len()
                &&& self.spec_endpoints()[i].method == m
                &&& full_route(self.spec_prefix(), self.spec_endpoints()[i]) == k
            }
        &&& forall|i: int|
            0 <= i < self.spec_endpoints().len() ==> routes_of(
                self.tree(self.spec_endpoints()[i].method),
            ).contains_key(full_route(self.spec_prefix(), #[trigger] self.spec_endpoints()[i]))
        &&& forall|i: int|
            0 <= i < self.spec_endpoints().len() ==> routes_of(
                self.tree(self.spec_endpoints()[i].method),
            )[full_route(self.spec_prefix(), #[trigger] self.spec_endpoints()[i])] == i
    }

    /// Builds the router of `endpoints` under `api_prefix`, with the login endpoint
    /// appended when authentication is configured. Fails when a full route has more
    /// than `MAX_ROUTE_PARAMS` braces or matchit refuses it (such as two endpoints with
    /// the same method and full route); succeeds whenever the endpoints are routable.
    pub fn build(api_prefix: &str, endpoints: Vec<Endpoint>, with_login: bool) -> (r: Result<
        EndpointRouter,
        RouterError,
    >)
        ensures
            routable(api_prefix@, endpoints@, with_login) ==> r is Ok,
            r matches Ok(rt) ==> rt.well_formed() && rt.spec_prefix() == api_prefix@ && (if with_login {
                rt.spec_endpoints() == endpoints@.push(rt.spec_endpoints().last())
                    && is_login_endpoint(rt.spec_endpoints().last())
            } else {
                rt.spec_endpoints() == endpoints@
            }),
    {
        let ghost given = endpoints@;
        let mut all = endpoints;
        if with_login {
            all.push(login_endpoint());
        }
        let ghost target = all@;
        proof {
            if routable(api_prefix@, given, with_login) {
                lemma_routable_target(api_prefix@, given, with_login, target);
            }
        }
        let mut rt = EndpointRouter {
            prefix: String::from_str(api_prefix),
            endpoints: Vec::new(),
            get: new_router(),
            post: new_router(),
            put: new_router(),
            delete: new_router(),
            unknown: new_router(),
        };
        let n = all.len();
        let mut i: usize = 0;
        while i < n
            invariant
                n == target.len(),
                i <= n,
                all@ == target.subrange(i as int, n as int),
                rt.spec_prefix() == api_prefix@,
                rt.spec_endpoints() == target.subrange(0, i as int),
                rt.well_formed(),
                with_login ==> target == given.push(target.last()) && is_login_endpoint(
                    target.last(),
                ),
                !with_login ==> target == given,
                given == endpoints@,
                routable(api_prefix@, given, with_login) ==> routable_target(api_prefix@, target),
            decreases n - i,
        {
            let e = all.remove(0);
            proof {
                assert(e == target[i as int]);
            }
            let full = endpoint_full_route(api_prefix, &e);
            if count_braces(&full) > MAX_ROUTE_PARAMS {
                proof {
                    lemma_static_no_brace(full@);
                    if routable(api_prefix@, given, with_login) {
                        assert(is_static_route(full_route(api_prefix@, target[i as int])));
                        assert(false);
                    }
                }
                return Err(RouterError::TooManyParams { route: full });
            }
            let ghost old_rt = rt;
            let m = e.method;
            let res = match m {
                HttpMethod::Get => insert_route(&mut rt.get, full.clone(), i),
                HttpMethod::Post => insert_route(&mut rt.post, full.clone(), i),
                HttpMethod::Put => insert_route(&mut rt.put, full.clone(), i),
                HttpMethod::Delete => insert_route(&mut rt.delete, full.clone(), i),
                HttpMethod::Unknown => insert_route(&mut rt.unknown, full.clone(), i),
            };
            match res {
                Ok(()) => {},
                Err(reason) => {
                    proof {
                        if routable(api_prefix@, given, with_login) {
                            assert(is_static_route(full@));
                            assert(routes_of(old_rt.tree(m)).contains_key(full@));
                            let v = routes_of(old_rt.tree(m))[full@] as int;
                            assert(old_rt.spec_endpoints()[v] == target[v]);
                            assert(v != i);
                            assert(target[v].method == target[i as int].method);
                            assert(full_route(api_prefix@, target[v]) != full_route(
                                api_prefix@,
                                target[i as int],
                            ));
                            assert(false);
                        }
                    }
                    return Err(RouterError::Insert { route: full, reason });
                },
            }
            rt.endpoints.push(e);
            proof {
                assert forall|mm: HttpMethod, k: Seq<char>|
                    #[trigger] routes_of(rt.tree(mm)).contains_key(k) implies {
                    let j = routes_of(rt.tree(mm))[k] as int;
                    &&& 0 <= j < rt.spec_endpoints().len()
                    &&& rt.spec_endpoints()[j].method == mm
                    &&& full_route(rt.spec_prefix(), rt.spec_endpoints()[j]) == k
                } by {
                    if mm == m && k == full@ {
                    } else {
                        assert(routes_of(old_rt.tree(mm)).contains_key(k));
                        let j = routes_of(old_rt.tree(mm))[k] as int;
                        assert(rt.spec_endpoints()[j] == old_rt.spec_endpoints()[j]);
                    }
                }
                assert forall|j: int| 0 <= j < rt.spec_endpoints().len() implies routes_of(
                    rt.tree(rt.spec_endpoints()[j].method),
                ).contains_key(full_route(rt.spec_prefix(), #[trigger] rt.spec_endpoints()[j])) by {
                    if j < i {
                        assert(rt.spec_endpoints()[j] == old_rt.spec_endpoints()[j]);
                    }
                }
                assert forall|j: int| 0 <= j < rt.spec_endpoints().len() implies routes_of(
                    rt.tree(rt.spec_endpoints()[j].method),
                )[full_route(rt.spec_prefix(), #[trigger] rt.spec_endpoints()[j])] == j by {
                    if j < i {
                        assert(rt.spec_endpoints()[j] == old_rt.spec_endpoints()[j]);
                        let ej = old_rt.spec_endpoints()[j];
                        assert(routes_of(old_rt.tree(ej.method)).contains_key(
                            full_route(old_rt.spec_prefix(), ej),
                        ));
                    }
                }
                assert(rt.spec_endpoints() =~= target.subrange(0, i as int + 1));
            }
            i = i + 1;
            proof {
                assert(all@ =~= target.subrange(i as int, n as int));
            }
        }
        proof {
            assert(target.subrange(0, n as int) =~= target);
        }
        Ok(rt)
    }

    /// Endpoint `i` of `method` is the one `path` reaches: its full route matches the
    /// path, no other full route of the method does, and the method's full routes are
    /// simple.
    pub open spec fn captured_by(&self, method: HttpMethod, i: int, path: Seq<char>) -> bool {
        let eps = self.spec_endpoints();
        &&& 0 <= i < eps.len()
        &&& eps[i].method == method
        &&& route_captures(full_route(self.spec_prefix(), eps[i]), path) is Some
        &&& forall|j: int|
            0 <= j < eps.len() && (#[trigger] eps[j]).method == method ==> simple_route(
                full_route(self.spec_prefix(), eps[j]),
            )
        &&& forall|j: int|
            0 <= j < eps.len() && j != i && (#[trigger] eps[j]).method == method
                ==> route_captures(full_route(self.spec_prefix(), eps[j]), path) is None
    }

    proof fn lemma_captured(&self, method: HttpMethod, i: int, path: Seq<char>)
        requires
            self.well_formed(),
            self.captured_by(method, i, path),
        ensures
            all_simple(routes_of(self.tree(method))),
            only_match(
                routes_of(self.tree(method)),
                full_route(self.spec_prefix(), self.spec_endpoints()[i]),
                path,
            ),
            routes_of(self.tree(method))[full_route(self.spec_prefix(), self.spec_endpoints()[i])]
                == i,
    {
        let m = routes_of(self.tree(method));
        let eps = self.spec_endpoints();
        let q = full_route(self.spec_prefix(), eps[i]);
        assert forall|p: Seq<char>| #[trigger] m.contains_key(p) implies simple_route(p) by {
            let v = m[p] as int;
            assert(eps[v].method == method);
        }
        assert(m.contains_key(q));
        assert forall|p: Seq<char>| #[trigger] m.contains_key(p) && p != q implies route_captures(
            p,
            path,
        ) is None by {
            let v = m[p] as int;
            assert(eps[v].method == method);
            assert(full_route(self.spec_prefix(), eps[v]) == p);
        }
    }

    /// The endpoint at `index`.
    pub fn endpoint(&self, index: usize) -> (e: &Endpoint)
        requires
            index < self.spec_endpoints().len(),
        ensures
            *e == self.spec_endpoints()[index as int],
    {
        &self.endpoints[index]
    }

    /// The number of endpoints.
    pub fn len(&self) -> (n: usize)
        ensures
            n == self.spec_endpoints().len(),
    {
        self.endpoints.len()
    }

    /// Finds the endpoint of `method` whose full route matches `path` (surrounding
    /// slashes ignored), with the captured path parameters. A path equal to the full
    /// route of an endpoint whose full route is static finds that endpoint.
    pub fn lookup(&self, method: HttpMethod, path: &str) -> (r: Result<RouteHit, RouteMiss>)
        requires
            self.well_formed(),
        ensures
            r matches Ok(h) ==> h.index < self.spec_endpoints().len()
                && self.spec_endpoints()[h.index as int].method == method,
            r matches Err(RouteMiss::NoMethod) <==> forall|
                i: int,
            |
                0 <= i < self.spec_endpoints().len() ==> (#[trigger] self.spec_endpoints()[i]).method
                    != method,
            forall|i: int|
                0 <= i < self.spec_endpoints().len() && (#[trigger] self.spec_endpoints()[i]).method
                    == method && full_route(self.spec_prefix(), self.spec_endpoints()[i])
                    == trim_slashes(path@) && is_static_route(trim_slashes(path@)) ==> (r matches Ok(h)
                    && full_route(self.spec_prefix(), self.spec_endpoints()[h.index as int])
                    == trim_slashes(path@) && h.index == i && h.params@.len() == 0),
            forall|i: int|
                #[trigger] self.captured_by(method, i, trim_slashes(path@)) ==> (r matches Ok(h)
                    && h.index == i && pairs_view(h.params@) == route_captures(
                    full_route(self.spec_prefix(), self.spec_endpoints()[i]),
                    trim_slashes(path@),
                ).unwrap()),
    {
        let mut any = false;
        let mut i: usize = 0;
        while i < self.endpoints.len()
            invariant
                i <= self.spec_endpoints().len(),
                self.spec_endpoints() == self.endpoints@,
                any <==> exists|j: int| 0 <= j < i && (#[trigger] self.endpoints@[j]).method == method,
            decreases self.spec_endpoints().len() - i,
        {
            if self.endpoints[i].method == method {
                any = true;
            }
            i = i + 1;
        }
        if !any {
            return Err(RouteMiss::NoMethod);
        }
        let trimmed = from_chars(trim_slash_chars(&to_chars(path)).as_slice());
        let tree = match method {
            HttpMethod::Get => &self.get,
            HttpMethod::Post => &self.post,
            HttpMethod::Put => &self.put,
            HttpMethod::Delete => &self.delete,
            HttpMethod::Unknown => &self.unknown,
        };
        assert(*tree == self.tree(method));
        proof {
            assert forall|i: int| #[trigger] self.captured_by(method, i, trimmed@) implies {
                &&& all_simple(routes_of(*tree))
                &&& only_match(
                    routes_of(*tree),
                    full_route(self.spec_prefix(), self.spec_endpoints()[i]),
                    trimmed@,
                )
                &&& routes_of(*tree)[full_route(self.spec_prefix(), self.spec_endpoints()[i])] == i
            } by {
                self.lemma_captured(method, i, trimmed@);
            }
        }
        match route_at(tree, trimmed.as_str()) {
            Some(hit) => {
                let ghost p = choose|p: Seq<char>|
                    routes_of(*tree).contains_key(p) && routes_of(*tree)[p] == hit.index;
                assert(routes_of(self.tree(method)).contains_key(p));
                Ok(hit)
            },
            None => {
                proof {
                    assert forall|j: int|
                        0 <= j < self.spec_endpoints().len() && (#[trigger] self.spec_endpoints()[j]).method
                            == method && full_route(self.spec_prefix(), self.spec_endpoints()[j])
                            == trimmed@ implies !is_static_route(trimmed@) by {
                        assert(routes_of(self.tree(method)).contains_key(full_route(self.spec_prefix(), self.spec_endpoints()[j])));
                    }
                }
                Err(RouteMiss::NoRoute)
            },
        }
    }
}

} // verus!
