//! The internal login endpoint: choosing the authentication backend, the outcome of
//! a credential check, and the session cookie handed back.

use vstd::prelude::*;

use crate::discovery::names_of;
use crate::endpoint::Endpoint;
use crate::gate::{ascii_chars, header_text, visible_ascii};
use crate::reply::{RequestError, decimal, decimal_text, expected};
use crate::text::{from_chars, str_equal};

verus! {

/// The id of the synthetic login endpoint.
pub const LOGIN_ENDPOINT_ID: &'static str = "Login";

/// The length of a session token.
pub const SESSION_TOKEN_LEN: usize = 32;

/// An ASCII letter or digit.
pub open spec fn is_alphanumeric(c: char) -> bool {
    ('a' <= c && c <= 'z') || ('A' <= c && c <= 'Z') || ('0' <= c && c <= '9')
}

/// Relies on `rand::distr::Alphanumeric` through `SampleString::sample_string`:
/// `len` characters, each drawn from the ASCII letters and digits.
#[verifier::external_body]
fn random_alphanumeric(len: usize) -> (r: String)
    ensures
        r@.len() == len,
        forall|i: int| 0 <= i < r@.len() ==> is_alphanumeric(#[trigger] r@[i]),
{
    rand::distr::SampleString::sample_string(&rand::distr::Alphanumeric, &mut rand::rng(), len)
}

/// A fresh session token: 32 random ASCII letters and digits.
pub fn new_session_token() -> (r: String)
    ensures
        r@.len() == SESSION_TOKEN_LEN,
        forall|i: int| 0 <= i < r@.len() ==> is_alphanumeric(#[trigger] r@[i]),
{
    random_alphanumeric(SESSION_TOKEN_LEN)
}

/// The index of the first backend named `name`, if any.
pub open spec fn backend_named(names: Seq<Seq<char>>, name: Seq<char>, i: int) -> bool {
    0 <= i < names.len() && names[i] == name && forall|j: int| 0 <= j < i ==> names[j] != name
}


/// What a login does after the backend checked the credentials.
#[derive(Debug)]
pub enum LoginStep {
    /// Open a session for `user_id` under `token`.
    CreateSession { user_id: u64, token: String },
    /// Answer with this error.
    Reject(RequestError),
}


/// The `Set-Cookie` value that carries a session token.
pub open spec fn session_cookie_text(token: Seq<char>, max_age: Option<u64>) -> Seq<char> {
    "Authorization="@ + token + "; SameSite=Lax; "@ + match max_age {
        Some(n) => "Max-Age="@ + decimal_text(n as nat),
        None => Seq::empty(),
    }
}


/// The login endpoint, answered by the runtime itself.
pub struct LoginCaptured;

impl LoginCaptured {
    /// Chooses the authentication backend of a login: the only one when a single one
    /// is configured, else the one that the `AuthenticationType` header names. Every
    /// failure answers 400.
    pub fn select_backend(backend_names: &Vec<String>, header: &Option<Vec<u8>>) -> (r: Result<
        usize,
        RequestError,
    >)
        ensures
            backend_names@.len() == 1 ==> r == Ok::<usize, RequestError>(0),
            backend_names@.len() != 1 ==> match header {
                None => r matches Err(RequestError::Expected { status, message }) && status == 400
                    && message@
                    == "No authentication method has been set. HINT: set one using the `AuthenticationType` header."@,
                Some(h) => if !visible_ascii(h@) {
                    r matches Err(RequestError::Expected { status, message }) && status == 400
                        && message@ == "Cannot deserialize the `AuthenticationType` header."@
                } else if exists|j: int| backend_named(names_of(backend_names@), ascii_chars(h@), j) {
                    (r matches Ok(k) && backend_named(names_of(backend_names@), ascii_chars(h@), k as int))
                } else {
                    r matches Err(RequestError::Expected { status, message }) && status == 400
                        && message@ == "Cannot find the requested authentication method."@
                },
            },
    {
        if backend_names.len() == 1 {
            return Ok(0);
        }
        match header {
            None => Err(
                expected(
                    400,
                    "No authentication method has been set. HINT: set one using the `AuthenticationType` header.",
                ),
            ),
            Some(h) => match header_text(h) {
                None => Err(expected(400, "Cannot deserialize the `AuthenticationType` header.")),
                Some(t) => {
                    let name = from_chars(t.as_slice());
                    let ghost nv = names_of(backend_names@);
                    let mut i: usize = 0;
                    while i < backend_names.len()
                        invariant
                            i <= backend_names@.len(),
                            nv == names_of(backend_names@),
                            name@ == ascii_chars(h@),
                            visible_ascii(h@),
                            header matches Some(hh) && hh@ == h@,
                            backend_names@.len() != 1,
                            forall|j: int| 0 <= j < i ==> nv[j] != name@,
                        decreases backend_names@.len() - i,
                    {
                        if str_equal(backend_names[i].as_str(), name.as_str()) {
                            assert(backend_named(nv, name@, i as int));
                            assert(exists|k: int| backend_named(nv, ascii_chars(h@), k));

                            return Ok(i);
                        }
                        i = i + 1;
                    }
                    assert(!exists|i: int| backend_named(nv, name@, i));
                    Err(expected(400, "Cannot find the requested authentication method."))
                },
            },
        }
    }

    /// The step after the credential check: a session with a fresh token for a known
    /// user, 403 for invalid credentials.
    pub fn login_after_check(user: Option<u64>) -> (r: LoginStep)
        ensures
            match user {
                Some(u) => r matches LoginStep::CreateSession { user_id, token } && user_id == u
                    && token@.len() == SESSION_TOKEN_LEN && forall|i: int|
                    0 <= i < token@.len() ==> is_alphanumeric(#[trigger] token@[i]),
                None => r matches LoginStep::Reject(RequestError::Expected { status, message })
                    && status == 403 && message@ == "Login failed, invalid credentials."@,
            },
    {
        match user {
            Some(u) => LoginStep::CreateSession { user_id: u, token: new_session_token() },
            None => LoginStep::Reject(expected(403, "Login failed, invalid credentials.")),
        }
    }

    /// The `Set-Cookie` header value of a successful login:
    /// `Authorization=<token>; SameSite=Lax; Max-Age=<n>`.
    pub fn session_cookie(token: &str, max_age: Option<u64>) -> (r: String)
        ensures
            r@ == session_cookie_text(token@, max_age),
    {
        let head = String::from_str("Authorization=").concat(token).concat("; SameSite=Lax; ");
        match max_age {
            Some(n) => {
                let d = decimal(n);
                head.concat("Max-Age=").concat(d.as_str())
            },
            None => {
                assert(head@ + Seq::<char>::empty() =~= head@);
                head
            },
        }
    }
}

/// The login-capture layer of the request pipeline.
pub struct AuthCaptureLayer;

impl AuthCaptureLayer {
    /// Whether a request to `endpoint` is a login, answered by `LoginCaptured` rather
    /// than by the endpoint's action.
    pub fn captures(endpoint: &Endpoint) -> (r: bool)
        ensures
            r == (endpoint.id@ == LOGIN_ENDPOINT_ID@),
    {
        str_equal(endpoint.id.as_str(), LOGIN_ENDPOINT_ID)
    }
}

} // verus!
