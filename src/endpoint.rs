//! Endpoint records and the duplicate-safe endpoint set.

use vstd::prelude::*;

use crate::text::{chars_equal, str_equal, to_chars, trim_slash_chars, trim_slashes};

verus! {

/// The HTTP methods an endpoint can answer.
#[derive(Clone, Copy, Debug, PartialEq, Eq, Structural, Hash)]
pub enum HttpMethod {
    Get,
    Post,
    Put,
    Delete,
    Unknown,
}

/// The method named by `s`, compared without regard to ASCII case.
pub open spec fn method_of_name(s: Seq<char>) -> HttpMethod {
    if crate::text::eq_ignore_ascii_case(s, seq!['g', 'e', 't']) {
        HttpMethod::Get
    } else if crate::text::eq_ignore_ascii_case(s, seq!['p', 'o', 's', 't']) {
        HttpMethod::Post
    } else if crate::text::eq_ignore_ascii_case(s, seq!['p', 'u', 't']) {
        HttpMethod::Put
    } else if crate::text::eq_ignore_ascii_case(s, seq!['d', 'e', 'l', 'e', 't', 'e']) {
        HttpMethod::Delete
    } else {
        HttpMethod::Unknown
    }
}

impl HttpMethod {
    /// The method named by a request line's method token (`GET`, `post`, ...).
    pub fn from_name(name: &str) -> (r: HttpMethod)
        ensures
            r == method_of_name(name@),
    {
        let v = to_chars(name);
        if crate::text::chars_eq_ignore_case(&v, &vec!['g', 'e', 't']) {
            HttpMethod::Get
        } else if crate::text::chars_eq_ignore_case(&v, &vec!['p', 'o', 's', 't']) {
            HttpMethod::Post
        } else if crate::text::chars_eq_ignore_case(&v, &vec!['p', 'u', 't']) {
            HttpMethod::Put
        } else if crate::text::chars_eq_ignore_case(&v, &vec!['d', 'e', 'l', 'e', 't', 'e']) {
            HttpMethod::Delete
        } else {
            HttpMethod::Unknown
        }
    }
}

/// How an endpoint's action is carried out.
#[derive(Clone, Debug)]
pub enum Execute {
    /// A parameterised SQL query.
    MySql(crate::execute::MySQLExecute),
    /// A named hook of the project.
    Hook { fn_name: String },
}

/// One `(method, route, action)` description, authored or discovered.
#[derive(Clone, Debug)]
pub struct Endpoint {
    /// Unique identifier.
    pub id: String,
    /// Path template with `{name}` captures, served under `{api_prefix}/{version}`.
    pub route: String,
    /// Optional version segment.
    pub version: Option<String>,
    pub method: HttpMethod,
    /// Database to run against; the primary one when absent.
    pub target_database: Option<String>,
    /// Action; absent when the runtime answers the endpoint itself.
    pub execute: Option<Execute>,
    pub description: Option<String>,
    pub tags: Vec<String>,
    /// Query-string names to accept.
    pub query_params: Vec<String>,
    /// JSON body names to accept.
    pub body_params: Vec<String>,
    pub require_auth: bool,
    /// Roles admitted when non-empty (compared in lower case).
    pub allowed_roles: Vec<String>,
    /// Accept every query and body name, not only the listed ones.
    pub capture_all_params: bool,
    /// Hand the session's user id to the action as the internal `user_id` parameter.
    pub inject_user_id: bool,
    pub deprecated: bool,
    pub auto_generated: bool,
}

/// The view of an optional text.
pub open spec fn opt_view(o: Option<String>) -> Option<Seq<char>> {
    match o {
        Some(s) => Some(s@),
        None => None,
    }
}

/// The uniqueness key of an endpoint: its method, its route without surrounding
/// slashes, and its version.
pub open spec fn route_key(e: Endpoint) -> (HttpMethod, Seq<char>, Option<Seq<char>>) {
    (e.method, trim_slashes(e.route@), opt_view(e.version))
}

/// Two endpoints that cannot both be in a set: same id, or same uniqueness key.
pub open spec fn conflicts(a: Endpoint, b: Endpoint) -> bool {
    a.id@ == b.id@ || route_key(a) == route_key(b)
}

/// Whether some endpoint of `s` conflicts with `e`.
pub open spec fn has_conflict(s: Seq<Endpoint>, e: Endpoint) -> bool {
    exists|i: int| 0 <= i < s.len() && conflicts(s[i], e)
}

/// No two endpoints of `s` conflict.
pub open spec fn all_unique(s: Seq<Endpoint>) -> bool {
    forall|i: int, j: int| 0 <= i < j < s.len() ==> !conflicts(#[trigger] s[i], #[trigger] s[j])
}

/// The set after adding `e`: unchanged when `e` conflicts with a member.
pub open spec fn add_spec(s: Seq<Endpoint>, e: Endpoint) -> Seq<Endpoint> {
    if has_conflict(s, e) {
        s
    } else {
        s.push(e)
    }
}

/// The set after adding each of `news` in turn.
pub open spec fn merge_spec(s: Seq<Endpoint>, news: Seq<Endpoint>) -> Seq<Endpoint>
    decreases news.len(),
{
    if news.len() == 0 {
        s
    } else {
        add_spec(merge_spec(s, news.drop_last()), news.last())
    }
}

/// The ids of `news` that merging into `s` drops, in order.
pub open spec fn merge_dropped(s: Seq<Endpoint>, news: Seq<Endpoint>) -> Seq<Seq<char>>
    decreases news.len(),
{
    if news.len() == 0 {
        Seq::empty()
    } else if has_conflict(merge_spec(s, news.drop_last()), news.last()) {
        merge_dropped(s, news.drop_last()).push(news.last().id@)
    } else {
        merge_dropped(s, news.drop_last())
    }
}

/// Adding the same endpoint twice: the second addition is refused (`merge` reports
/// it) and leaves the set as the first one made it.
pub proof fn lemma_add_twice_unchanged(s: Seq<Endpoint>, e: Endpoint)
    ensures
        has_conflict(add_spec(s, e), e),
        add_spec(add_spec(s, e), e) == add_spec(s, e),
{
    if !has_conflict(s, e) {
        let t = s.push(e);
        assert(conflicts(t[s.len() as int], e));
    }
}

/// An endpoint with another id but the same method, trimmed route and version as a
/// member of the set is refused, and the set stays as it was.
pub proof fn lemma_same_key_refused(s: Seq<Endpoint>, a: Endpoint, b: Endpoint)
    requires
        s.contains(a),
        a.id@ != b.id@,
        route_key(a) == route_key(b),
    ensures
        has_conflict(s, b),
        add_spec(s, b) == s,
{
    let i = choose|i: int| 0 <= i < s.len() && s[i] == a;
    assert(conflicts(s[i], b));
}

/// Why an endpoint was refused.
#[derive(Clone, Debug)]
pub enum EndpointError {
    /// The set already holds `existing`, which has the same id or uniqueness key.
    Duplicate { existing: String },
}

/// Whether `a` and `b` conflict.
pub fn endpoints_conflict(a: &Endpoint, b: &Endpoint) -> (r: bool)
    ensures
        r == conflicts(*a, *b),
{
    if str_equal(a.id.as_str(), b.id.as_str()) {
        return true;
    }
    if a.method != b.method {
        return false;
    }
    let same_version = match (&a.version, &b.version) {
        (Some(x), Some(y)) => str_equal(x.as_str(), y.as_str()),
        (None, None) => true,
        _ => false,
    };
    if !same_version {
        return false;
    }
    let ra = trim_slash_chars(&to_chars(a.route.as_str()));
    let rb = trim_slash_chars(&to_chars(b.route.as_str()));
    chars_equal(&ra, &rb)
}

/// An ordered set of endpoints in which no two conflict.
#[derive(Clone, Debug)]
pub struct Endpoints {
    pub inner: Vec<Endpoint>,
}

impl View for Endpoints {
    type V = Seq<Endpoint>;

    open spec fn view(&self) -> Seq<Endpoint> {
        self.inner@
    }
}

impl Endpoints {
    /// Whether no two endpoints of the set conflict.
    pub open spec fn well_formed(&self) -> bool {
        all_unique(self@)
    }

    /// The empty set.
    pub fn empty() -> (r: Endpoints)
        ensures
            r@ == Seq::<Endpoint>::empty(),
            r.well_formed(),
    {
        Endpoints { inner: Vec::new() }
    }

    /// The first endpoint of the set that conflicts with `e`, if any.
    pub fn find_conflict(&self, e: &Endpoint) -> (r: Option<usize>)
        ensures
            match r {
                Some(i) => i < self@.len() && conflicts(self@[i as int], *e) && forall|j: int|
                    0 <= j < i ==> !conflicts(#[trigger] self@[j], *e),
                None => !has_conflict(self@, *e),
            },
    {
        let mut i: usize = 0;
        while i < self.inner.len()
            invariant
                i <= self@.len(),
                forall|j: int| 0 <= j < i ==> !conflicts(#[trigger] self@[j], *e),
            decreases self@.len() - i,
        {
            if endpoints_conflict(&self.inner[i], e) {
                return Some(i);
            }
            i = i + 1;
        }
        None
    }

    /// Adds `new_endpoint` unless an endpoint with the same id, or the same method,
    /// trimmed route and version, is already present.
    pub fn add(&mut self, new_endpoint: Endpoint) -> (r: Result<(), EndpointError>)
        ensures
            final(self)@ == add_spec(old(self)@, new_endpoint),
            r is Err <==> has_conflict(old(self)@, new_endpoint),
            match r {
                Err(EndpointError::Duplicate { existing }) => exists|i: int|
                    0 <= i < old(self)@.len() && conflicts(old(self)@[i], new_endpoint)
                        && old(self)@[i].id@ == existing@,
                Ok(()) => true,
            },
            old(self).well_formed() ==> final(self).well_formed(),
    {
        match self.find_conflict(&new_endpoint) {
            Some(i) => Err(EndpointError::Duplicate { existing: self.inner[i].id.clone() }),
            None => {
                proof {
                    let s = self@;
                    if all_unique(s) {
                        assert forall|a: int, b: int| 0 <= a < b < s.len() + 1 implies !conflicts(
                            #[trigger] s.push(new_endpoint)[a],
                            #[trigger] s.push(new_endpoint)[b],
                        ) by {
                            assert(s.push(new_endpoint)[a] == s[a]);
                            if b == s.len() {
                                assert(!conflicts(s[a], new_endpoint));
                            } else {
                                assert(s.push(new_endpoint)[b] == s[b]);
                            }
                        }
                    }
                }
                self.inner.push(new_endpoint);
                Ok(())
            },
        }
    }

    /// Adds each endpoint of `new_endpoints` in turn; those refused by `add` are
    /// dropped and their ids returned, in order, for the caller to report.
    pub fn merge(&mut self, new_endpoints: Endpoints) -> (dropped: Vec<String>)
        ensures
            final(self)@ == merge_spec(old(self)@, new_endpoints@),
            dropped@.map_values(|d: String| d@) == merge_dropped(old(self)@, new_endpoints@),
            old(self).well_formed() ==> final(self).well_formed(),
    {
        let ghost start = self@;
        let ghost news = new_endpoints@;
        let mut rest = new_endpoints.inner;
        let n = rest.len();
        let mut dropped: Vec<String> = Vec::new();
        let mut i: usize = 0;
        proof {
            assert(news.subrange(0, 0) =~= Seq::<Endpoint>::empty());
            assert(dropped@.map_values(|d: String| d@) =~= Seq::<Seq<char>>::empty());
            assert(rest@ =~= news.subrange(0, news.len() as int));
        }
        while rest.len() > 0
            invariant
                i + rest@.len() == news.len(),
                news.len() == n,
                rest@ == news.subrange(i as int, news.len() as int),
                self@ == merge_spec(start, news.subrange(0, i as int)),
                dropped@.map_values(|d: String| d@) == merge_dropped(
                    start,
                    news.subrange(0, i as int),
                ),
                all_unique(start) ==> self.well_formed(),
            decreases rest@.len(),
        {
            let e = rest.remove(0);
            proof {
                let sub = news.subrange(0, i as int + 1);
                assert(sub.drop_last() =~= news.subrange(0, i as int));
                assert(sub.last() == news[i as int]);
                assert(e == news[i as int]);
            }
            let ghost before = dropped@;
            let id = e.id.clone();
            let res = self.add(e);
            if res.is_err() {
                dropped.push(id);
                proof {
                    assert(dropped@.map_values(|d: String| d@) =~= before.map_values(
                        |d: String| d@,
                    ).push(news[i as int].id@));
                }
            }
            i = i + 1;
            proof {
                assert(rest@ =~= news.subrange(i as int, news.len() as int));
            }
        }
        proof {
            assert(news.subrange(0, news.len() as int) =~= news);
        }
        dropped
    }
}

} // verus!
