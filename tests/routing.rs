use waveless::endpoint::{Endpoint, HttpMethod};
use waveless::router::{endpoint_full_route, EndpointRouter, RouteMiss};

fn endpoint(id: &str, method: HttpMethod, route: &str, version: Option<&str>) -> Endpoint {
    let mut e = Endpoint::default();
    e.id = id.to_string();
    e.method = method;
    e.route = route.to_string();
    e.version = version.map(|v| v.to_string());
    e
}

fn router(with_login: bool) -> EndpointRouter {
    let eps = vec![
        endpoint("many", HttpMethod::Get, "posts", Some("v1")),
        endpoint("one", HttpMethod::Get, "/posts/{id}/", Some("v1")),
        endpoint("put", HttpMethod::Put, "posts/{id}", Some("v1")),
        endpoint("about", HttpMethod::Get, "about", None),
    ];
    match EndpointRouter::build("/api", eps, with_login) {
        Ok(r) => r,
        Err(e) => panic!("router refused: {:?}", e),
    }
}

#[test]
fn literal_route_finds_its_endpoint() {
    let r = router(false);
    let hit = r.lookup(HttpMethod::Get, "/api/v1/posts").unwrap();
    assert_eq!(r.endpoint(hit.index).id, "many");
    assert!(hit.params.is_empty());
    let hit = r.lookup(HttpMethod::Get, "api/about/").unwrap();
    assert_eq!(r.endpoint(hit.index).id, "about");
}

#[test]
fn captured_route_reports_its_value() {
    let r = router(false);
    let hit = r.lookup(HttpMethod::Get, "/api/v1/posts/7").unwrap();
    assert_eq!(r.endpoint(hit.index).id, "one");
    assert_eq!(hit.params, vec![("id".to_string(), "7".to_string())]);
    let hit = r.lookup(HttpMethod::Put, "/api/v1/posts/abc").unwrap();
    assert_eq!(r.endpoint(hit.index).id, "put");
}

#[test]
fn misses() {
    let r = router(false);
    assert_eq!(r.lookup(HttpMethod::Delete, "/api/v1/posts/7").err(), Some(RouteMiss::NoMethod));
    assert_eq!(r.lookup(HttpMethod::Get, "/api/v2/posts").err(), Some(RouteMiss::NoRoute));
    assert_eq!(r.lookup(HttpMethod::Get, "/api/v1/posts/7/8").err(), Some(RouteMiss::NoRoute));
}

#[test]
fn login_endpoint_is_installed_with_authentication() {
    let r = router(true);
    let hit = r.lookup(HttpMethod::Post, "/api/internal/login").unwrap();
    let e = r.endpoint(hit.index);
    assert_eq!(e.id, "Login");
    assert!(e.capture_all_params);
    assert!(e.execute.is_none());
    assert_eq!(router(false).lookup(HttpMethod::Post, "/api/internal/login").err(), Some(RouteMiss::NoMethod));
}

#[test]
fn full_route_trims_each_segment() {
    let e = endpoint("x", HttpMethod::Get, "/posts/{id}/", Some("/v1/"));
    assert_eq!(endpoint_full_route("/api/", &e), "api/v1/posts/{id}");
    let e = endpoint("x", HttpMethod::Get, "posts", None);
    assert_eq!(endpoint_full_route("", &e), "posts");
}

#[test]
fn same_full_route_twice_is_refused() {
    let eps = vec![
        endpoint("a", HttpMethod::Get, "posts", Some("v1")),
        endpoint("b", HttpMethod::Get, "/posts", Some("v1")),
    ];
    assert!(EndpointRouter::build("/api", eps, false).is_err());
}

#[test]
fn too_many_parameters_are_refused() {
    let route: Vec<String> = (0..26).map(|i| format!("{{p{}}}", i)).collect();
    let eps = vec![endpoint("a", HttpMethod::Get, &route.join("/"), None)];
    assert!(EndpointRouter::build("/api", eps, false).is_err());
}

#[test]
fn login_endpoint_fields_after_build() {
    let r = router(true);
    let e = r.endpoint(r.len() - 1);
    assert_eq!(e.id, "Login");
    assert_eq!(e.route, "login");
    assert_eq!(e.version, Some("internal".to_string()));
    assert_eq!(e.method, HttpMethod::Post);
    assert!(e.capture_all_params && e.execute.is_none() && !e.require_auth);
}
