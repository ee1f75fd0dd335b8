//! Request parameter extraction: path captures, then query-string pairs, then JSON
//! body members, as client parameters of the endpoint's action.

use vstd::prelude::*;

use crate::discovery::names_of;
use crate::endpoint::Endpoint;
use crate::execute::{ExecuteParamValue, ExecuteParams, ParamView, split_chars, split_on};
use crate::reply::{RequestError, expected};
use crate::text::{find_char, first_of, from_chars, slice_chars, str_equal, to_chars};

verus! {

/// The views of a list of pairs of texts.
pub open spec fn pairs_view(s: Seq<(String, String)>) -> Seq<(Seq<char>, Seq<char>)> {
    s.map_values(|p: (String, String)| (p.0@, p.1@))
}

/// What `serde_json` reads from a request body: for a JSON object, its members in
/// the order of its map, a string member as its text and any other member as its JSON
/// rendering; none for anything that is not a JSON object.
pub uninterp spec fn json_members_of(body: Seq<u8>) -> Option<Seq<(Seq<char>, Seq<char>)>>;

/// Relies on `serde_json::from_slice` into `serde_json::Value` and on the `Display`
/// rendering of non-string values: the members of a JSON object body; none for
/// invalid JSON or a value that is not an object.
#[verifier::external_body]
fn json_members(body: &[u8]) -> (r: Option<Vec<(String, String)>>)
    ensures
        match r {
            Some(v) => json_members_of(body@) == Some(pairs_view(v@)),
            None => json_members_of(body@) is None,
        },
{
    match serde_json::from_slice::<serde_json::Value>(body) {
        Ok(serde_json::Value::Object(members)) => Some(
            members.into_iter().map(|(k, v)| match v {
                serde_json::Value::String(s) => (k, s),
                other => (k, other.to_string()),
            }).collect(),
        ),
        _ => None,
    }
}

/// The `key=value` pairs of the pieces of a query string; none when a piece has no `=`.
pub open spec fn query_pairs(pieces: Seq<Seq<char>>) -> Option<Seq<(Seq<char>, Seq<char>)>>
    decreases pieces.len(),
{
    if pieces.len() == 0 {
        Some(Seq::empty())
    } else {
        match query_pairs(pieces.drop_last()) {
            None => None,
            Some(ps) => match first_of(pieces.last(), '=') {
                Some(k) => Some(
                    ps.push(
                        (
                            pieces.last().subrange(0, k),
                            pieces.last().subrange(k + 1, pieces.last().len() as int),
                        ),
                    ),
                ),
                None => None,
            },
        }
    }
}

/// The value of the first pair named `key`.
pub open spec fn first_value(pairs: Seq<(Seq<char>, Seq<char>)>, key: Seq<char>) -> Option<Seq<char>>
    decreases pairs.len(),
{
    if pairs.len() == 0 {
        None
    } else {
        match first_value(pairs.drop_last(), key) {
            Some(v) => Some(v),
            None => if pairs.last().0 == key {
                Some(pairs.last().1)
            } else {
                None
            },
        }
    }
}

/// `m` with every pair set as a client value, in order.
pub open spec fn with_all(m: Map<Seq<char>, ParamView>, pairs: Seq<(Seq<char>, Seq<char>)>) -> Map<
    Seq<char>,
    ParamView,
>
    decreases pairs.len(),
{
    if pairs.len() == 0 {
        m
    } else {
        with_all(m, pairs.drop_last()).insert(
            pairs.last().0,
            ParamView::Client(Some(pairs.last().1)),
        )
    }
}

/// `m` with each of `keys` set to the client value of its first pair, or to no value.
pub open spec fn with_listed(
    m: Map<Seq<char>, ParamView>,
    keys: Seq<Seq<char>>,
    pairs: Seq<(Seq<char>, Seq<char>)>,
) -> Map<Seq<char>, ParamView>
    decreases keys.len(),
{
    if keys.len() == 0 {
        m
    } else {
        with_listed(m, keys.drop_last(), pairs).insert(
            keys.last(),
            ParamView::Client(first_value(pairs, keys.last())),
        )
    }
}

/// `m` with the pairs taken in: all of them, or the listed keys only.
pub open spec fn with_pairs(
    m: Map<Seq<char>, ParamView>,
    capture_all: bool,
    keys: Seq<Seq<char>>,
    pairs: Seq<(Seq<char>, Seq<char>)>,
) -> Map<Seq<char>, ParamView> {
    if capture_all {
        with_all(m, pairs)
    } else {
        with_listed(m, keys, pairs)
    }
}

/// Why a request's parameters were refused (each answers 400).
#[derive(Clone, Copy, Debug, PartialEq, Eq, Structural)]
pub enum ParamsError {
    /// A query-string piece without `=`.
    BadQuery,
    /// The endpoint takes a body and the request has none.
    EmptyBody,
    /// The body is not a JSON object.
    BadBody,
}

impl ParamsError {
    /// The 400 answer of the error.
    pub fn to_request_error(self) -> (r: RequestError)
        ensures
            r matches RequestError::Expected { status, .. } && status == 400,
    {
        match self {
            ParamsError::BadQuery => expected(400, "Cannot parse request's query."),
            ParamsError::EmptyBody => expected(
                400,
                "The request's body for this endpoint cannot be empty.",
            ),
            ParamsError::BadBody => expected(
                400,
                "Invalid request's body. The provided JSON's format is unsupported.",
            ),
        }
    }
}

/// The parameters of a request to `e`: its path captures, then its query pairs, then
/// (when the endpoint takes a body) its JSON body members.
pub open spec fn extracted(
    e: Endpoint,
    captures: Map<Seq<char>, ParamView>,
    query: Option<Seq<char>>,
    body: Seq<u8>,
) -> Result<Map<Seq<char>, ParamView>, ParamsError> {
    let after_query = match query {
        Some(q) => match query_pairs(split_on(q, '&')) {
            None => Err(ParamsError::BadQuery),
            Some(ps) => Ok(with_pairs(captures, e.capture_all_params, names_of(e.query_params@), ps)),
        },
        None => Ok(with_pairs(captures, e.capture_all_params, names_of(e.query_params@), Seq::empty())),
    };
    match after_query {
        Err(f) => Err(f),
        Ok(m) => if e.body_params@.len() > 0 || e.capture_all_params {
            if body.len() == 0 {
                Err(ParamsError::EmptyBody)
            } else {
                match json_members_of(body) {
                    None => Err(ParamsError::BadBody),
                    Some(ms) => Ok(with_pairs(m, e.capture_all_params, names_of(e.body_params@), ms)),
                }
            }
        } else {
            Ok(m)
        },
    }
}

/// The `key=value` pairs of a query string.
fn parse_query(q: &str) -> (r: Option<Vec<(String, String)>>)
    ensures
        match r {
            Some(v) => query_pairs(split_on(q@, '&')) == Some(pairs_view(v@)),
            None => query_pairs(split_on(q@, '&')) is None,
        },
{
    let pieces = split_chars(&to_chars(q), '&');
    let ghost pv = pieces@.map_values(|p: Vec<char>| p@);
    let mut out: Vec<(String, String)> = Vec::new();
    let mut i: usize = 0;
    proof {
        assert(pv.subrange(0, 0) =~= Seq::<Seq<char>>::empty());
        assert(pairs_view(out@) =~= Seq::<(Seq<char>, Seq<char>)>::empty());
    }
    while i < pieces.len()
        invariant
            i <= pieces@.len(),
            pv == pieces@.map_values(|p: Vec<char>| p@),
            pv == split_on(q@, '&'),
            query_pairs(pv.subrange(0, i as int)) == Some(pairs_view(out@)),
        decreases pieces@.len() - i,
    {
        proof {
            let s = pv.subrange(0, i as int + 1);
            assert(s.drop_last() =~= pv.subrange(0, i as int));
            assert(s.last() == pieces@[i as int]@);
        }
        let p = &pieces[i];
        match find_char(p, '=') {
            Some(k) => {
                proof {
                    crate::text::lemma_first_of(p@, '=');
                    assert(crate::text::first_at(p@, '=', k as int));
                }
                let key = from_chars(slice_chars(p, 0, k).as_slice());
                let n = p.len();
                let value = from_chars(slice_chars(p, k + 1, n).as_slice());
                let ghost before = out@;
                out.push((key, value));
                proof {
                    assert(pairs_view(out@) =~= pairs_view(before).push((key@, value@)));
                }
            },
            None => {
                proof {
                    assert(query_pairs(pv.subrange(0, i as int + 1)) is None);
                    lemma_pairs_none_persists(pv, i as int + 1);
                    assert(pv.subrange(0, pv.len() as int) =~= pv);
                }
                return None;
            },
        }
        i = i + 1;
    }
    proof {
        assert(pv.subrange(0, pv.len() as int) =~= pv);
    }
    Some(out)
}

proof fn lemma_pairs_none_persists(p: Seq<Seq<char>>, k: int)
    requires
        0 <= k <= p.len(),
        query_pairs(p.subrange(0, k)) is None,
    ensures
        query_pairs(p.subrange(0, p.len() as int)) is None,
    decreases p.len() - k,
{
    if k < p.len() {
        let s = p.subrange(0, k + 1);
        assert(s.drop_last() =~= p.subrange(0, k));
        lemma_pairs_none_persists(p, k + 1);
    }
}

/// The value of the first pair named `key`.
fn first_pair_value(pairs: &Vec<(String, String)>, key: &str) -> (r: Option<String>)
    ensures
        match r {
            Some(v) => first_value(pairs_view(pairs@), key@) == Some(v@),
            None => first_value(pairs_view(pairs@), key@) is None,
        },
{
    let ghost pv = pairs_view(pairs@);
    let mut i: usize = 0;
    proof {
        assert(pv.subrange(0, 0) =~= Seq::<(Seq<char>, Seq<char>)>::empty());
    }
    while i < pairs.len()
        invariant
            i <= pairs@.len(),
            pv == pairs_view(pairs@),
            first_value(pv.subrange(0, i as int), key@) is None,
        decreases pairs@.len() - i,
    {
        proof {
            let s = pv.subrange(0, i as int + 1);
            assert(s.drop_last() =~= pv.subrange(0, i as int));
            assert(s.last() == pv[i as int]);
        }
        if str_equal(pairs[i].0.as_str(), key) {
            proof {
                lemma_first_value_kept(pv, i as int + 1, pv.len() as int, pairs@[i as int].1@, key@);
                assert(pv.subrange(0, pv.len() as int) =~= pv);
            }
            return Some(pairs[i].1.clone());
        }
        i = i + 1;
    }
    proof {
        assert(pv.subrange(0, pv.len() as int) =~= pv);
    }
    None
}

proof fn lemma_first_value_kept(
    pv: Seq<(Seq<char>, Seq<char>)>,
    i: int,
    m: int,
    v: Seq<char>,
    key: Seq<char>,
)
    requires
        0 <= i <= m <= pv.len(),
        first_value(pv.subrange(0, i), key) == Some(v),
    ensures
        first_value(pv.subrange(0, m), key) == Some(v),
    decreases m - i,
{
    if m > i {
        lemma_first_value_kept(pv, i, m - 1, v, key);
        assert(pv.subrange(0, m).drop_last() =~= pv.subrange(0, m - 1));
    }
}

/// Sets every pair as a client value, in order.
pub fn apply_all(params: &mut ExecuteParams, pairs: &Vec<(String, String)>)
    ensures
        final(params)@ == with_all(old(params)@, pairs_view(pairs@)),
{
    let ghost start = params@;
    let ghost pv = pairs_view(pairs@);
    let mut i: usize = 0;
    proof {
        assert(pv.subrange(0, 0) =~= Seq::<(Seq<char>, Seq<char>)>::empty());
    }
    while i < pairs.len()
        invariant
            i <= pairs@.len(),
            pv == pairs_view(pairs@),
            params@ == with_all(start, pv.subrange(0, i as int)),
        decreases pairs@.len() - i,
    {
        proof {
            let s = pv.subrange(0, i as int + 1);
            assert(s.drop_last() =~= pv.subrange(0, i as int));
            assert(s.last() == pv[i as int]);
        }
        params.insert(pairs[i].0.clone(), ExecuteParamValue::Client(Some(pairs[i].1.clone())));
        i = i + 1;
    }
    proof {
        assert(pv.subrange(0, pv.len() as int) =~= pv);
    }
}

/// Sets each of `keys` to the client value of its first pair, or to no value.
pub fn apply_listed(params: &mut ExecuteParams, keys: &Vec<String>, pairs: &Vec<(String, String)>)
    ensures
        final(params)@ == with_listed(old(params)@, names_of(keys@), pairs_view(pairs@)),
{
    let ghost start = params@;
    let ghost kv = names_of(keys@);
    let mut i: usize = 0;
    proof {
        assert(kv.subrange(0, 0) =~= Seq::<Seq<char>>::empty());
    }
    while i < keys.len()
        invariant
            i <= keys@.len(),
            kv == names_of(keys@),
            params@ == with_listed(start, kv.subrange(0, i as int), pairs_view(pairs@)),
        decreases keys@.len() - i,
    {
        proof {
            let s = kv.subrange(0, i as int + 1);
            assert(s.drop_last() =~= kv.subrange(0, i as int));
            assert(s.last() == kv[i as int]);
        }
        let v = first_pair_value(pairs, keys[i].as_str());
        params.insert(keys[i].clone(), ExecuteParamValue::Client(v));
        i = i + 1;
    }
    proof {
        assert(kv.subrange(0, kv.len() as int) =~= kv);
    }
}

/// Takes the pairs in (those of a query string or of a JSON body): all of them, or
/// the listed keys only.
pub fn apply_pairs(
    params: &mut ExecuteParams,
    capture_all: bool,
    keys: &Vec<String>,
    pairs: &Vec<(String, String)>,
)
    ensures
        final(params)@ == with_pairs(old(params)@, capture_all, names_of(keys@), pairs_view(pairs@)),
{
    if capture_all {
        apply_all(params, pairs);
    } else {
        apply_listed(params, keys, pairs);
    }
}


/// The parameter-extraction layer of the request pipeline.
pub struct RequestParamsExtractorLayer;

impl RequestParamsExtractorLayer {
    /// The parameters of a request to `endpoint`: the path `captures`, then the pairs of
    /// the query string (every pair when the endpoint captures all parameters, else each
    /// listed query parameter, without a value when absent), then likewise the members of
    /// the JSON body when the endpoint takes body parameters. An unparsable query, an
    /// empty body or a body that is not a JSON object is refused.
    pub fn extract_params(
        endpoint: &Endpoint,
        captures: ExecuteParams,
        query: Option<&str>,
        body: &Vec<u8>,
    ) -> (r: Result<ExecuteParams, ParamsError>)
        ensures
            match r {
                Ok(p) => Ok::<Map<Seq<char>, ParamView>, ParamsError>(p@),
                Err(e) => Err(e),
            } == extracted(
                *endpoint,
                captures@,
                match query {
                    Some(q) => Some(q@),
                    None => None,
                },
                body@,
            ),
    {
        let mut params = captures;
        match query {
            Some(q) => match parse_query(q) {
                Some(pairs) => apply_pairs(
                    &mut params,
                    endpoint.capture_all_params,
                    &endpoint.query_params,
                    &pairs,
                ),
                None => {
                    return Err(ParamsError::BadQuery);
                },
            },
            None => {
                let none: Vec<(String, String)> = Vec::new();
                proof {
                    assert(pairs_view(none@) =~= Seq::<(Seq<char>, Seq<char>)>::empty());
                }
                apply_pairs(&mut params, endpoint.capture_all_params, &endpoint.query_params, &none);
            },
        }
        if endpoint.body_params.len() > 0 || endpoint.capture_all_params {
            if body.len() == 0 {
                return Err(ParamsError::EmptyBody);
            }
            match json_members(body.as_slice()) {
                Some(members) => apply_pairs(
                    &mut params,
                    endpoint.capture_all_params,
                    &endpoint.body_params,
                    &members,
                ),
                None => {
                    return Err(ParamsError::BadBody);
                },
            }
        }
        Ok(params)
    }
}

} // verus!
