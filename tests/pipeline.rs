use waveless::assemble::{build, load_build, BuildError};
use waveless::checksum::DatabaseChecksum;
use waveless::codec::{decode_binary, encode_binary, CodecError, MAGIC_LEN};
use waveless::endpoint::{Endpoint, Endpoints, HttpMethod};
use waveless::execute::{ExecuteParamValue, ExecuteParams};
use waveless::params::{ParamsError, RequestParamsExtractorLayer};
use waveless::pool::{pool_bounds, DatabasesConnections, PoolError};
use waveless::project::{
    authentication_name, session_max_age, should_skip, should_skip_cheapvec, should_skip_option,
    Build, Executor, General,
};
use waveless::reply::{decimal, ExecuteWrapperLayer, RequestError};

fn client_of(p: &ExecuteParams, name: &str) -> Option<Option<String>> {
    match p.get(name) {
        Some(ExecuteParamValue::Client(v)) => Some(v.clone()),
        _ => None,
    }
}

fn body_endpoint(params: &[&str]) -> Endpoint {
    let mut e = Endpoint::default();
    e.body_params = params.iter().map(|s| s.to_string()).collect();
    e
}

#[test]
fn default_into_bin_and_back() {
    let build = Build::default();
    let body = format!("{:?}", build).into_bytes();
    let serialized = encode_binary(&body);
    assert_eq!(&serialized[..MAGIC_LEN], b"waveless_binary");
    let deserialized = decode_binary(&serialized).unwrap();
    assert_eq!(deserialized, body);
}

#[test]
fn empty_body_round_trip() {
    let framed = encode_binary(&Vec::new());
    assert_eq!(framed, b"waveless_binary".to_vec());
    assert_eq!(decode_binary(&framed).unwrap(), Vec::<u8>::new());
}

#[test]
fn missing_magic_is_refused() {
    assert_eq!(decode_binary(&b"waveless_binar".to_vec()), Err(CodecError::MagicMismatch));
    assert_eq!(decode_binary(&b"Waveless_binary123".to_vec()), Err(CodecError::MagicMismatch));
}

#[test]
fn query_params_are_extracted() {
    let mut e = Endpoint::default();
    e.query_params = vec!["a".to_string(), "b".to_string()];
    let mut captures = ExecuteParams::new();
    captures.insert("id".to_string(), ExecuteParamValue::Client(Some("7".to_string())));
    let p = RequestParamsExtractorLayer::extract_params(&e, captures, Some("a=1&c=3&a=2"), &Vec::new()).unwrap();
    assert_eq!(client_of(&p, "id"), Some(Some("7".to_string())));
    assert_eq!(client_of(&p, "a"), Some(Some("1".to_string())));
    assert_eq!(client_of(&p, "b"), Some(None));
    assert_eq!(client_of(&p, "c"), None);
}

#[test]
fn capture_all_takes_every_pair() {
    let mut e = Endpoint::default();
    e.capture_all_params = true;
    let body = br#"{"email":"a@b","password":"p","n":3}"#.to_vec();
    let p = RequestParamsExtractorLayer::extract_params(&e, ExecuteParams::new(), Some("x=1"), &body).unwrap();
    assert_eq!(client_of(&p, "x"), Some(Some("1".to_string())));
    assert_eq!(client_of(&p, "email"), Some(Some("a@b".to_string())));
    assert_eq!(client_of(&p, "password"), Some(Some("p".to_string())));
    assert_eq!(client_of(&p, "n"), Some(Some("3".to_string())));
}

#[test]
fn listed_body_params_are_extracted() {
    let e = body_endpoint(&["body", "author"]);
    let p = RequestParamsExtractorLayer::extract_params(&e, ExecuteParams::new(), None, &br#"{"body":"hi"}"#.to_vec()).unwrap();
    assert_eq!(client_of(&p, "body"), Some(Some("hi".to_string())));
    assert_eq!(client_of(&p, "author"), Some(None));
}

#[test]
fn bad_requests_are_refused() {
    let e = body_endpoint(&["body"]);
    assert_eq!(
        RequestParamsExtractorLayer::extract_params(&e, ExecuteParams::new(), None, &Vec::new()).err(),
        Some(ParamsError::EmptyBody)
    );
    assert_eq!(
        RequestParamsExtractorLayer::extract_params(&e, ExecuteParams::new(), None, &b"{not json".to_vec()).err(),
        Some(ParamsError::BadBody)
    );
    assert_eq!(
        RequestParamsExtractorLayer::extract_params(&e, ExecuteParams::new(), None, &b"[1,2]".to_vec()).err(),
        Some(ParamsError::BadBody)
    );
    assert_eq!(
        RequestParamsExtractorLayer::extract_params(&e, ExecuteParams::new(), Some("novalue"), &b"{}".to_vec()).err(),
        Some(ParamsError::BadQuery)
    );
    match ParamsError::EmptyBody.to_request_error() {
        RequestError::Expected { status, .. } => assert_eq!(status, 400),
        other => panic!("unexpected {:?}", other),
    }
}

#[test]
fn endpoint_without_body_ignores_it() {
    let e = Endpoint::default();
    assert!(RequestParamsExtractorLayer::extract_params(&e, ExecuteParams::new(), None, &Vec::new()).is_ok());
}

#[test]
fn pools_by_id_with_primary_fallback() {
    let d = DatabasesConnections::new(vec![
        ("main".to_string(), true, 10u32),
        ("logs".to_string(), false, 20u32),
    ])
    .unwrap();
    assert_eq!(d.search(&None), Some(&10));
    assert_eq!(d.search(&Some("main".to_string())), Some(&10));
    assert_eq!(d.search(&Some("logs".to_string())), Some(&20));
    assert_eq!(d.search(&Some("other".to_string())), None);
}

#[test]
fn later_entries_after_the_primary_keep_their_ids() {
    let d = DatabasesConnections::new(vec![
        ("logs".to_string(), false, 1u8),
        ("main".to_string(), true, 2u8),
        ("cache".to_string(), false, 3u8),
    ])
    .unwrap();
    assert_eq!(d.search(&None), Some(&2));
    assert_eq!(d.search(&Some("logs".to_string())), Some(&1));
    assert_eq!(d.search(&Some("cache".to_string())), Some(&3));
}

#[test]
fn exactly_one_primary_is_required() {
    assert_eq!(DatabasesConnections::new(vec![("a".to_string(), false, 1u8)]).err(), Some(PoolError::NoPrimary));
    assert_eq!(
        DatabasesConnections::new(vec![("a".to_string(), true, 1u8), ("b".to_string(), true, 2u8)]).err(),
        Some(PoolError::SeveralPrimaries)
    );
    let many: Vec<(String, bool, u8)> = (0..10).map(|i| (format!("d{}", i), i == 0, 0u8)).collect();
    assert_eq!(DatabasesConnections::new(many).err(), Some(PoolError::TooMany));
}

#[test]
fn pool_bounds_default_to_parallelism() {
    assert_eq!(pool_bounds(None, None, 4), (4, 8));
    assert_eq!(pool_bounds(Some(1), Some(2), 4), (1, 2));
    assert_eq!(pool_bounds(None, None, u64::MAX), (u64::MAX, u64::MAX));
}

#[test]
fn envelope_status_and_headers() {
    let e = RequestError::Expected { status: 404, message: "nope".to_string() };
    assert_eq!(ExecuteWrapperLayer::error_reply(&e), (404, "nope".to_string()));
    let o = RequestError::Other { message: "db down".to_string() };
    assert_eq!(ExecuteWrapperLayer::error_reply(&o), (500, "Unexpected error: db down".to_string()));
    assert_eq!(ExecuteWrapperLayer::cache_control(0), "max-age=0");
    assert_eq!(ExecuteWrapperLayer::cache_control(3600), "max-age=3600");
    assert_eq!(decimal(u64::MAX), u64::MAX.to_string());
}

#[test]
fn skip_filters_depend_on_binary_mode() {
    assert!(should_skip(&false, false));
    assert!(!should_skip(&true, false));
    assert!(!should_skip(&false, true));
    assert!(should_skip_option::<u8>(&None, false));
    assert!(!should_skip_option::<u8>(&None, true));
    assert!(!should_skip_option(&Some(1u8), false));
    assert!(should_skip_cheapvec::<u8>(&vec![], false));
    assert!(!should_skip_cheapvec::<u8>(&vec![], true));
    assert!(!should_skip_cheapvec(&vec![1u8], false));
}

fn endpoint(id: &str, route: &str) -> Endpoint {
    let mut e = Endpoint::default();
    e.id = id.to_string();
    e.route = route.to_string();
    e.method = HttpMethod::Get;
    e
}

fn set(eps: Vec<Endpoint>) -> Endpoints {
    let mut s = Endpoints::empty();
    for e in eps {
        s.add(e).unwrap();
    }
    s
}

#[test]
fn build_merges_user_then_discovered_endpoints() {
    let user = vec![set(vec![endpoint("a", "posts")]), set(vec![endpoint("b", "users")])];
    let discovered = vec![set(vec![endpoint("posts_GetMany", "/posts"), endpoint("c", "tags")])];
    let (b, dropped) = build(General::default(), Executor::default(), user, discovered, vec![]);
    let ids: Vec<&str> = b.endpoints.inner.iter().map(|e| e.id.as_str()).collect();
    assert_eq!(ids, vec!["a", "b", "c"]);
    assert_eq!(dropped, vec!["posts_GetMany".to_string()]);
    assert!(load_build(&b).is_ok());
}

#[test]
fn default_build_is_servable() {
    let b = Build::default();
    assert_eq!(b.endpoints.inner.len(), 1);
    assert!(load_build(&b).is_ok());
}

#[test]
fn unservable_builds_are_refused() {
    let mut b = Build::default();
    b.database_checksums.push(DatabaseChecksum { database_id: "nowhere".to_string(), checksum: vec![0; 4] });
    assert!(matches!(load_build(&b), Err(BuildError::UnknownChecksumDatabase { .. })));

    let mut b = Build::default();
    b.general.databases[1].is_primary = true;
    assert!(matches!(load_build(&b), Err(BuildError::SeveralPrimaries)));

    let mut b = Build::default();
    b.general.databases[0].is_primary = false;
    assert!(matches!(load_build(&b), Err(BuildError::NoPrimary)));

    let mut b = Build::default();
    b.endpoints.inner[0].target_database = Some("nowhere".to_string());
    assert!(matches!(load_build(&b), Err(BuildError::UnknownTargetDatabase { .. })));

    let mut b = Build::default();
    let copy = b.endpoints.inner[0].clone();
    b.endpoints.inner.push(copy);
    assert!(matches!(load_build(&b), Err(BuildError::DuplicateEndpoint { .. })));
}

#[test]
fn backend_names_and_session_lifetime() {
    let auth = General::default().authentication.unwrap();
    assert_eq!(authentication_name(&auth.backends[0]), "mysqlsimple");
    assert_eq!(authentication_name(&auth.backends[1]), "ldap_example_server");
    assert_eq!(session_max_age(&auth.session), Some(86400));
}
