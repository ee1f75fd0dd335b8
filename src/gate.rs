//! The session and role gate in front of endpoints that require authentication,
//! as decisions from what the request and the backends answered to the next step.

use vstd::prelude::*;

use crate::discovery::{lowercase_text, to_lower};
use crate::endpoint::Endpoint;
use crate::execute::{ExecuteParamValue, ExecuteParams, ParamView, split_chars, split_on};
use crate::reply::{RequestError, decimal, decimal_text, expected, internal};
use crate::text::{
    chars_eq_ignore_case,
    eq_ignore_ascii_case,
    find_char,
    first_of,
    from_chars,
    slice_chars,
    str_equal,
    to_chars,
    trim_space_chars,
    trim_spaces,
};

verus! {

/// The bytes `HeaderValue::to_str` accepts: visible ASCII and tab.
pub open spec fn visible_ascii(b: Seq<u8>) -> bool {
    forall|i: int| 0 <= i < b.len() ==> (32 <= #[trigger] b[i] < 127 || b[i] == 9)
}

/// ASCII bytes read as characters.
pub open spec fn ascii_chars(b: Seq<u8>) -> Seq<char> {
    Seq::new(b.len(), |i: int| b[i] as char)
}

/// A header value as text, when it is visible ASCII.
pub fn header_text(b: &Vec<u8>) -> (r: Option<Vec<char>>)
    ensures
        r is Some <==> visible_ascii(b@),
        r matches Some(t) ==> t@ == ascii_chars(b@),
{
    let mut t: Vec<char> = Vec::new();
    let mut i: usize = 0;
    while i < b.len()
        invariant
            i <= b@.len(),
            t@.len() == i,
            forall|j: int| 0 <= j < i ==> (32 <= #[trigger] b@[j] < 127 || b@[j] == 9),
            forall|j: int| 0 <= j < i ==> #[trigger] t@[j] == b@[j] as char,
        decreases b@.len() - i,
    {
        let x = b[i];
        if !(32 <= x && x < 127 || x == 9) {
            return None;
        }
        t.push(x as char);
        i = i + 1;
    }
    assert(t@ =~= ascii_chars(b@));
    Some(t)
}

/// The name of the session cookie, compared without regard to ASCII case.
pub open spec fn is_auth_cookie_name(name: Seq<char>) -> bool {
    eq_ignore_ascii_case(name, "authorization"@)
}

/// The value of a `name=value` cookie pair whose trimmed name is the session
/// cookie's; none for a pair without `=`.
pub open spec fn auth_cookie_value(p: Seq<char>) -> Option<Seq<char>> {
    match first_of(p, '=') {
        Some(k) => if is_auth_cookie_name(trim_spaces(p.subrange(0, k))) {
            Some(p.subrange(k + 1, p.len() as int))
        } else {
            None
        },
        None => None,
    }
}

/// The value of the first session cookie among the pairs `pairs`.
pub open spec fn first_auth_cookie(pairs: Seq<Seq<char>>) -> Option<Seq<char>>
    decreases pairs.len(),
{
    if pairs.len() == 0 {
        None
    } else {
        match first_auth_cookie(pairs.drop_last()) {
            Some(v) => Some(v),
            None => auth_cookie_value(pairs.last()),
        }
    }
}

/// Why no token could be read.
pub enum TokenFault {
    MalformedAuthorization,
    MalformedCookie,
}

/// The session token of a request: the `Authorization` header verbatim, else the
/// session cookie of the `Cookie` header.
pub open spec fn located_token(authorization: Option<Seq<u8>>, cookie: Option<Seq<u8>>) -> Result<
    Option<Seq<char>>,
    TokenFault,
> {
    match authorization {
        Some(a) => if visible_ascii(a) {
            Ok(Some(ascii_chars(a)))
        } else {
            Err(TokenFault::MalformedAuthorization)
        },
        None => match cookie {
            Some(c) => if visible_ascii(c) {
                Ok(first_auth_cookie(split_on(trim_spaces(ascii_chars(c)), ';')))
            } else {
                Err(TokenFault::MalformedCookie)
            },
            None => Ok(None),
        },
    }
}

pub open spec fn opt_bytes(o: Option<Vec<u8>>) -> Option<Seq<u8>> {
    match o {
        Some(v) => Some(v@),
        None => None,
    }
}

/// The session cookie's value in a `Cookie` header's text.
fn cookie_token(text: &Vec<char>) -> (r: Option<Vec<char>>)
    ensures
        match r {
            Some(v) => first_auth_cookie(split_on(trim_spaces(text@), ';')) == Some(v@),
            None => first_auth_cookie(split_on(trim_spaces(text@), ';')) is None,
        },
{
    let trimmed = trim_space_chars(text);
    let pairs = split_chars(&trimmed, ';');
    let ghost pv = pairs@.map_values(|p: Vec<char>| p@);
    let name = to_chars("authorization");
    let mut i: usize = 0;
    proof {
        assert(pv.subrange(0, 0) =~= Seq::<Seq<char>>::empty());
    }
    while i < pairs.len()
        invariant
            i <= pairs@.len(),
            pv == pairs@.map_values(|p: Vec<char>| p@),
            pv == split_on(trim_spaces(text@), ';'),
            name@ == "authorization"@,
            first_auth_cookie(pv.subrange(0, i as int)) is None,
        decreases pairs@.len() - i,
    {
        proof {
            let s = pv.subrange(0, i as int + 1);
            assert(s.drop_last() =~= pv.subrange(0, i as int));
            assert(s.last() == pairs@[i as int]@);
        }
        let p = &pairs[i];
        match find_char(p, '=') {
            Some(k) => {
                proof {
                    crate::text::lemma_first_of(p@, '=');
                }
                let head = slice_chars(p, 0, k);
                let n = trim_space_chars(&head);
                if chars_eq_ignore_case(&n, &name) {
                    let n = p.len();
                    let v = slice_chars(p, k + 1, n);
                    proof {
                        let s = pv.subrange(0, i as int + 1);
                        assert(first_auth_cookie(s) == Some(v@));
                        assert forall|m: int| i + 1 <= m <= pv.len() implies first_auth_cookie(
                            #[trigger] pv.subrange(0, m),
                        ) == Some(v@) by {
                            lemma_first_cookie_kept(pv, i as int + 1, m, v@);
                        }
                        assert(pv.subrange(0, pv.len() as int) =~= pv);
                    }
                    return Some(v);
                }
            },
            None => {},
        }
        i = i + 1;
    }
    proof {
        assert(pv.subrange(0, pv.len() as int) =~= pv);
    }
    None
}

proof fn lemma_first_cookie_kept(pv: Seq<Seq<char>>, i: int, m: int, v: Seq<char>)
    requires
        0 <= i <= m <= pv.len(),
        first_auth_cookie(pv.subrange(0, i)) == Some(v),
    ensures
        first_auth_cookie(pv.subrange(0, m)) == Some(v),
    decreases m - i,
{
    if m > i {
        lemma_first_cookie_kept(pv, i, m - 1, v);
        assert(pv.subrange(0, m).drop_last() =~= pv.subrange(0, m - 1));
    }
}

/// Reads the session token of a request from its `Authorization` header (verbatim)
/// or, without one, from the `authorization` cookie (any ASCII case) of its `Cookie`
/// header; a header that is not visible ASCII is refused with status 400.
pub fn locate_token(authorization: &Option<Vec<u8>>, cookie: &Option<Vec<u8>>) -> (r: Result<
    Option<String>,
    RequestError,
>)
    ensures
        match located_token(opt_bytes(*authorization), opt_bytes(*cookie)) {
            Ok(Some(t)) => r matches Ok(Some(s)) && s@ == t,
            Ok(None) => r matches Ok(None),
            Err(TokenFault::MalformedAuthorization) => r matches Err(
                RequestError::Expected { status, message },
            ) && status == 400 && message@ == "Malformed auth header."@,
            Err(TokenFault::MalformedCookie) => r matches Err(
                RequestError::Expected { status, message },
            ) && status == 400 && message@ == "Malformed cookie header."@,
        },
{
    match authorization {
        Some(a) => match header_text(a) {
            Some(t) => Ok(Some(from_chars(t.as_slice()))),
            None => Err(expected(400, "Malformed auth header.")),
        },
        None => match cookie {
            Some(c) => match header_text(c) {
                Some(t) => match cookie_token(&t) {
                    Some(v) => Ok(Some(from_chars(v.as_slice()))),
                    None => Ok(None),
                },
                None => Err(expected(400, "Malformed cookie header.")),
            },
            None => Ok(None),
        },
    }
}

/// Whether a session created at `created_at` with lifetime `max_age` (seconds) is
/// valid at `now`: `created_at <= now < created_at + max_age`.
pub fn session_is_fresh(created_at: i64, max_age: u64, now: i64) -> (r: bool)
    ensures
        r == (created_at <= now && now < created_at + max_age),
{
    (created_at as i128) <= (now as i128) && (now as i128) < (created_at as i128) + (
    max_age as i128)
}

/// What happens next to a request that requires authentication.
#[derive(Debug)]
pub enum GateStep {
    /// Hand the request on to the executor.
    Forward,
    /// Ask the session backend which user `token` belongs to.
    CheckSession { token: String },
    /// Ask the role backend for the role of `user_id`.
    CheckRole { user_id: u64 },
    /// Answer with this error.
    Reject(RequestError),
}

/// The message of a request without credentials to an endpoint that requires them.
pub open spec fn requires_auth_message(id: Seq<char>) -> Seq<char> {
    "'"@ + id + "' requires authentication."@
}

/// Whether `role` is one of `allowed`, both compared in lower case.
pub open spec fn role_admitted(allowed: Seq<String>, role: Seq<char>) -> bool {
    exists|i: int| 0 <= i < allowed.len() && lowercase_text(allowed[i]@) == lowercase_text(role)
}

fn admits(allowed: &Vec<String>, role: &str) -> (r: bool)
    ensures
        r == role_admitted(allowed@, role@),
{
    let lowered = to_lower(role);
    assert(lowered@ == lowercase_text(role@));
    let mut i: usize = 0;
    while i < allowed.len()
        invariant
            i <= allowed@.len(),
            lowered@ == lowercase_text(role@),
            forall|j: int| 0 <= j < i ==> lowercase_text(allowed@[j]@) != lowercase_text(role@),
        decreases allowed@.len() - i,
    {
        let a = to_lower(allowed[i].as_str());
        assert(a@ == lowercase_text(allowed@[i as int]@));
        if str_equal(a.as_str(), lowered.as_str()) {
            return true;
        }
        i = i + 1;
    }
    false
}

/// The session and role gate of the request pipeline.
pub struct SessionWatchdogLayer;

impl SessionWatchdogLayer {

    /// The first step for a request: endpoints that do not require authentication pass;
    /// otherwise the request must carry a token (401 without one, 400 for a malformed
    /// header), authentication must be configured, and the token is handed to the
    /// session backend.
    pub fn gate_request(
        endpoint: &Endpoint,
        auth_configured: bool,
        authorization: &Option<Vec<u8>>,
        cookie: &Option<Vec<u8>>,
    ) -> (r: GateStep)
        ensures
            !endpoint.require_auth ==> r is Forward,
            endpoint.require_auth ==> match located_token(
                opt_bytes(*authorization),
                opt_bytes(*cookie),
            ) {
                Ok(Some(t)) => if auth_configured {
                    r matches GateStep::CheckSession { token } && token@ == t
                } else {
                    r matches GateStep::Reject(RequestError::Other { .. })
                },
                Ok(None) => r matches GateStep::Reject(RequestError::Expected { status, message })
                    && status == 401 && message@ == requires_auth_message(endpoint.id@),
                Err(_) => r matches GateStep::Reject(RequestError::Expected { status, .. }) && status
                    == 400,
            },
            endpoint.require_auth && authorization is None && cookie is None ==> (
            r matches GateStep::Reject(RequestError::Expected { status, .. }) && status == 401),
    {
        if !endpoint.require_auth {
            return GateStep::Forward;
        }
        match locate_token(authorization, cookie) {
            Err(e) => GateStep::Reject(e),
            Ok(None) => {
                let m = String::from_str("'").concat(endpoint.id.as_str()).concat(
                    "' requires authentication.",
                );
                GateStep::Reject(RequestError::Expected { status: 401, message: m })
            },
            Ok(Some(token)) => {
                if !auth_configured {
                    let m = String::from_str("Endpoint '").concat(endpoint.id.as_str()).concat(
                        "' requires auth but authentication is not set for this build.",
                    );
                    return GateStep::Reject(RequestError::Other { message: m });
                }
                GateStep::CheckSession { token }
            },
        }
    }

    /// The step once the session backend answered `session_user` for the token:
    /// an unknown or expired session is refused with 401; otherwise the user id is
    /// injected as the internal `user_id` parameter when the endpoint asks for it, and the
    /// request passes unless the endpoint restricts roles, which are then looked up.
    pub fn gate_after_session(
        endpoint: &Endpoint,
        session_user: Option<u64>,
        roles_configured: bool,
        params: &mut ExecuteParams,
    ) -> (r: GateStep)
        ensures
            match session_user {
                None => r matches GateStep::Reject(RequestError::Expected { status, message })
                    && status == 401 && message@ == "Invalid session."@ && final(params)@ == old(
                    params,
                )@,
                Some(u) => {
                    &&& !endpoint.inject_user_id ==> final(params)@ == old(params)@
                    &&& endpoint.inject_user_id ==> final(params)@ == old(params)@.insert(
                        "user_id"@,
                        ParamView::Internal(decimal_text(u as nat)),
                    )
                    &&& endpoint.allowed_roles@.len() == 0 ==> r is Forward
                    &&& endpoint.allowed_roles@.len() > 0 && roles_configured ==> r
                        == GateStep::CheckRole { user_id: u }
                    &&& endpoint.allowed_roles@.len() > 0 && !roles_configured ==> (r matches GateStep::Reject(RequestError::Other { .. }))
                },
            },
    {
        match session_user {
            None => GateStep::Reject(expected(401, "Invalid session.")),
            Some(u) => {
                if endpoint.inject_user_id {
                    params.insert(String::from_str("user_id"), ExecuteParamValue::Internal(decimal(u)));
                }
                if endpoint.allowed_roles.len() == 0 {
                    GateStep::Forward
                } else if roles_configured {
                    GateStep::CheckRole { user_id: u }
                } else {
                    let m = String::from_str("Endpoint '").concat(endpoint.id.as_str()).concat(
                        "' requires roles authentication but they are not set for this build.",
                    );
                    GateStep::Reject(RequestError::Other { message: m })
                }
            },
        }
    }


    /// The last step once the role backend answered `role`: the request passes when
    /// the role is one of the endpoint's allowed roles, both compared in lower case, and
    /// is refused with 401 otherwise or without a role.
    pub fn gate_after_role(endpoint: &Endpoint, role: &Option<String>) -> (r: GateStep)
        ensures
            match role {
                None => r matches GateStep::Reject(RequestError::Expected { status, message })
                    && status == 401 && message@ == "Current user does not have any role."@,
                Some(x) => if role_admitted(endpoint.allowed_roles@, x@) {
                    r is Forward
                } else {
                    r matches GateStep::Reject(RequestError::Expected { status, message })
                        && status == 401 && message@
                        == "Current user does not have any of the allowed roles."@
                },
            },
    {
        match role {
            None => GateStep::Reject(expected(401, "Current user does not have any role.")),
            Some(x) => {
                if admits(&endpoint.allowed_roles, x.as_str()) {
                    GateStep::Forward
                } else {
                    GateStep::Reject(
                        expected(401, "Current user does not have any of the allowed roles."),
                    )
                }
            },
        }
    }
}


} // verus!
