use waveless::endpoint::{Endpoint, EndpointError, Endpoints, HttpMethod};

fn endpoint(id: &str, method: HttpMethod, route: &str, version: Option<&str>) -> Endpoint {
    let mut e = Endpoint::default();
    e.id = id.to_string();
    e.method = method;
    e.route = route.to_string();
    e.version = version.map(|v| v.to_string());
    e
}

#[test]
fn same_endpoint_twice_is_dropped_with_a_warning() {
    let mut set = Endpoints::empty();
    assert!(set.add(endpoint("a", HttpMethod::Get, "posts", Some("v1"))).is_ok());
    let mut again = Endpoints::empty();
    again.add(endpoint("a", HttpMethod::Get, "posts", Some("v1"))).unwrap();
    let dropped = set.merge(again);
    assert_eq!(dropped, vec!["a".to_string()]);
    assert_eq!(set.inner.len(), 1);
    assert_eq!(set.inner[0].id, "a");
}

#[test]
fn same_key_with_other_id_is_refused() {
    let mut set = Endpoints::empty();
    set.add(endpoint("a", HttpMethod::Get, "/posts/", Some("v1"))).unwrap();
    match set.add(endpoint("b", HttpMethod::Get, "posts", Some("v1"))) {
        Err(EndpointError::Duplicate { existing }) => assert_eq!(existing, "a"),
        other => panic!("unexpected {:?}", other),
    }
    assert_eq!(set.inner.len(), 1);
}

#[test]
fn same_id_with_other_key_is_refused() {
    let mut set = Endpoints::empty();
    set.add(endpoint("a", HttpMethod::Get, "posts", None)).unwrap();
    assert!(set.add(endpoint("a", HttpMethod::Post, "users", None)).is_err());
}

#[test]
fn other_method_or_version_is_accepted() {
    let mut set = Endpoints::empty();
    set.add(endpoint("a", HttpMethod::Get, "posts", Some("v1"))).unwrap();
    set.add(endpoint("b", HttpMethod::Post, "posts", Some("v1"))).unwrap();
    set.add(endpoint("c", HttpMethod::Get, "posts", Some("v2"))).unwrap();
    set.add(endpoint("d", HttpMethod::Get, "posts", None)).unwrap();
    assert_eq!(set.inner.len(), 4);
}

#[test]
fn merge_keeps_order_and_reports_each_drop() {
    let mut set = Endpoints::empty();
    set.add(endpoint("a", HttpMethod::Get, "x", None)).unwrap();
    let mut more = Endpoints::empty();
    more.add(endpoint("b", HttpMethod::Get, "y", None)).unwrap();
    more.add(endpoint("c", HttpMethod::Get, "/x", None)).unwrap();
    more.add(endpoint("d", HttpMethod::Get, "z", None)).unwrap();
    let dropped = set.merge(more);
    assert_eq!(dropped, vec!["c".to_string()]);
    let ids: Vec<&str> = set.inner.iter().map(|e| e.id.as_str()).collect();
    assert_eq!(ids, vec!["a", "b", "d"]);
}

#[test]
fn method_names_ignore_case() {
    assert_eq!(HttpMethod::from_name("GET"), HttpMethod::Get);
    assert_eq!(HttpMethod::from_name("post"), HttpMethod::Post);
    assert_eq!(HttpMethod::from_name("Put"), HttpMethod::Put);
    assert_eq!(HttpMethod::from_name("DELETE"), HttpMethod::Delete);
    assert_eq!(HttpMethod::from_name("PATCH"), HttpMethod::Unknown);
    assert_eq!(HttpMethod::from_name(""), HttpMethod::Unknown);
}
