use waveless::endpoint::Endpoint;
use waveless::execute::{ExecuteParamValue, ExecuteParams};
use waveless::gate::{locate_token, session_is_fresh, GateStep, SessionWatchdogLayer};
use waveless::login::{
    new_session_token, AuthCaptureLayer, LoginCaptured, LoginStep, LOGIN_ENDPOINT_ID,
};
use waveless::reply::RequestError;

fn guarded(id: &str) -> Endpoint {
    let mut e = Endpoint::default();
    e.id = id.to_string();
    e.require_auth = true;
    e
}

fn status_of(step: &GateStep) -> Option<u16> {
    match step {
        GateStep::Reject(RequestError::Expected { status, .. }) => Some(*status),
        GateStep::Reject(RequestError::Other { .. }) => Some(500),
        _ => None,
    }
}

#[test]
fn session_is_fresh_within_its_lifetime() {
    assert!(session_is_fresh(1000, 60, 1000));
    assert!(session_is_fresh(1000, 60, 1059));
    assert!(!session_is_fresh(1000, 60, 1060));
    assert!(!session_is_fresh(1000, 60, 999));
    assert!(!session_is_fresh(1000, 0, 1000));
    assert!(session_is_fresh(i64::MIN, u64::MAX, i64::MAX - 1));
    assert!(!session_is_fresh(i64::MIN, u64::MAX, i64::MAX));
}

#[test]
fn request_without_credentials_is_refused_with_401() {
    let step = SessionWatchdogLayer::gate_request(&guarded("posts"), true, &None, &None);
    match step {
        GateStep::Reject(RequestError::Expected { status, message }) => {
            assert_eq!(status, 401);
            assert_eq!(message, "'posts' requires authentication.");
        }
        other => panic!("unexpected {:?}", other),
    }
}

#[test]
fn cookie_without_session_cookie_is_refused_with_401() {
    let cookie = Some(b"theme=dark; lang=en".to_vec());
    let step = SessionWatchdogLayer::gate_request(&guarded("x"), true, &None, &cookie);
    assert_eq!(status_of(&step), Some(401));
}

#[test]
fn open_endpoint_passes() {
    let e = Endpoint::default();
    assert!(matches!(SessionWatchdogLayer::gate_request(&e, false, &None, &None), GateStep::Forward));
}

#[test]
fn authorization_header_is_the_token() {
    let step = SessionWatchdogLayer::gate_request(&guarded("x"), true, &Some(b"abc123".to_vec()), &None);
    match step {
        GateStep::CheckSession { token } => assert_eq!(token, "abc123"),
        other => panic!("unexpected {:?}", other),
    }
}

#[test]
fn session_cookie_is_found_in_any_case() {
    let cookie = Some(b"theme=dark; AUTHORIZATION=tok42; x=y".to_vec());
    assert_eq!(locate_token(&None, &cookie).unwrap(), Some("tok42".to_string()));
    let first = Some(b"authorization=first".to_vec());
    assert_eq!(locate_token(&None, &first).unwrap(), Some("first".to_string()));
}

#[test]
fn header_takes_priority_over_cookie() {
    let cookie = Some(b"authorization=fromcookie".to_vec());
    assert_eq!(locate_token(&Some(b"fromheader".to_vec()), &cookie).unwrap(), Some("fromheader".to_string()));
}

#[test]
fn malformed_headers_are_refused_with_400() {
    let bad = Some(vec![0x66u8, 0x80]);
    match locate_token(&bad, &None) {
        Err(RequestError::Expected { status, message }) => {
            assert_eq!(status, 400);
            assert_eq!(message, "Malformed auth header.");
        }
        other => panic!("unexpected {:?}", other),
    }
    assert!(matches!(locate_token(&None, &bad), Err(RequestError::Expected { status: 400, .. })));
}

#[test]
fn auth_without_configuration_is_an_internal_error() {
    let step = SessionWatchdogLayer::gate_request(&guarded("x"), false, &Some(b"tok".to_vec()), &None);
    assert!(matches!(step, GateStep::Reject(RequestError::Other { .. })));
}

#[test]
fn missing_credentials_are_refused_even_without_configuration() {
    let step = SessionWatchdogLayer::gate_request(&guarded("x"), false, &None, &None);
    assert_eq!(status_of(&step), Some(401));
}

#[test]
fn roles_compare_without_case_on_both_sides() {
    let mut e = guarded("x");
    e.allowed_roles = vec!["Admin".to_string(), "editor".to_string()];
    assert!(matches!(SessionWatchdogLayer::gate_after_role(&e, &Some("admin".to_string())), GateStep::Forward));
    assert!(matches!(SessionWatchdogLayer::gate_after_role(&e, &Some("EDITOR".to_string())), GateStep::Forward));
    assert_eq!(status_of(&SessionWatchdogLayer::gate_after_role(&e, &Some("viewer".to_string()))), Some(401));
}

#[test]
fn invalid_session_is_refused() {
    let mut p = ExecuteParams::new();
    let step = SessionWatchdogLayer::gate_after_session(&guarded("x"), None, true, &mut p);
    assert_eq!(status_of(&step), Some(401));
    assert!(p.entries.is_empty());
}

#[test]
fn user_id_is_injected_as_internal_parameter() {
    let mut e = guarded("x");
    e.inject_user_id = true;
    let mut p = ExecuteParams::new();
    let step = SessionWatchdogLayer::gate_after_session(&e, Some(1234), true, &mut p);
    assert!(matches!(step, GateStep::Forward));
    match p.get("user_id") {
        Some(ExecuteParamValue::Internal(v)) => assert_eq!(v, "1234"),
        other => panic!("unexpected {:?}", other),
    }
}

#[test]
fn roles_are_looked_up_when_restricted() {
    let mut e = guarded("x");
    e.allowed_roles = vec!["admin".to_string()];
    let mut p = ExecuteParams::new();
    match SessionWatchdogLayer::gate_after_session(&e, Some(7), true, &mut p) {
        GateStep::CheckRole { user_id } => assert_eq!(user_id, 7),
        other => panic!("unexpected {:?}", other),
    }
    assert!(matches!(SessionWatchdogLayer::gate_after_role(&e, &Some("Admin".to_string())), GateStep::Forward));
    assert_eq!(status_of(&SessionWatchdogLayer::gate_after_role(&e, &Some("guest".to_string()))), Some(401));
    assert_eq!(status_of(&SessionWatchdogLayer::gate_after_role(&e, &None)), Some(401));
}

#[test]
fn login_with_valid_credentials_opens_a_session() {
    match LoginCaptured::login_after_check(Some(5)) {
        LoginStep::CreateSession { user_id, token } => {
            assert_eq!(user_id, 5);
            assert_eq!(token.len(), 32);
            assert!(token.chars().all(|c| c.is_ascii_alphanumeric()));
            let cookie = LoginCaptured::session_cookie(&token, Some(86400));
            assert_eq!(cookie, format!("Authorization={}; SameSite=Lax; Max-Age=86400", token));
        }
        other => panic!("unexpected {:?}", other),
    }
}

#[test]
fn login_with_invalid_credentials_is_forbidden() {
    match LoginCaptured::login_after_check(None) {
        LoginStep::Reject(RequestError::Expected { status, message }) => {
            assert_eq!(status, 403);
            assert_eq!(message, "Login failed, invalid credentials.");
        }
        other => panic!("unexpected {:?}", other),
    }
}

#[test]
fn session_tokens_differ() {
    let a = new_session_token();
    let b = new_session_token();
    assert_eq!(a.len(), 32);
    assert_ne!(a, b);
}

#[test]
fn cookie_without_max_age() {
    assert_eq!(LoginCaptured::session_cookie("t", None), "Authorization=t; SameSite=Lax; ");
}

#[test]
fn backend_selection() {
    let one = vec!["mysqlsimple".to_string()];
    assert_eq!(LoginCaptured::select_backend(&one, &None).unwrap(), 0);
    let two = vec!["mysqlsimple".to_string(), "ldap".to_string()];
    assert_eq!(LoginCaptured::select_backend(&two, &Some(b"ldap".to_vec())).unwrap(), 1);
    assert!(matches!(
        LoginCaptured::select_backend(&two, &None),
        Err(RequestError::Expected { status: 400, .. })
    ));
    match LoginCaptured::select_backend(&two, &Some(b"other".to_vec())) {
        Err(RequestError::Expected { status, message }) => {
            assert_eq!(status, 400);
            assert_eq!(message, "Cannot find the requested authentication method.");
        }
        other => panic!("unexpected {:?}", other),
    }
}

#[test]
fn login_endpoint_is_captured() {
    let mut e = Endpoint::default();
    assert!(!AuthCaptureLayer::captures(&e));
    e.id = LOGIN_ENDPOINT_ID.to_string();
    assert!(AuthCaptureLayer::captures(&e));
}
