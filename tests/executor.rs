use waveless::endpoint::{Endpoint, Execute, HttpMethod};
use waveless::execute::{
    ExecuteError, ExecuteExt, ExecuteHandler, ExecuteInput, ExecuteParamValue, ExecuteParams,
    MySQLExecute,
};
use waveless::reply::RequestError;

fn client(v: &str) -> ExecuteParamValue {
    ExecuteParamValue::Client(Some(v.to_string()))
}

fn params(entries: &[(&str, ExecuteParamValue)]) -> ExecuteParams {
    let mut p = ExecuteParams::new();
    for (k, v) in entries {
        p.insert(k.to_string(), v.clone());
    }
    p
}

fn run(template: &str, method: HttpMethod, p: ExecuteParams) -> Result<(String, Vec<String>), ExecuteError> {
    let exec = MySQLExecute { query: template.to_string() };
    let input = ExecuteInput { params: p, value: Vec::new() };
    exec.execute(method, &input).map(|q| (q.query, q.values))
}

#[test]
fn placeholders_become_bound_values_in_order() {
    let p = params(&[("x", client("1")), ("y", client("2"))]);
    let (q, v) = run("SELECT a FROM t WHERE x = {x} AND y = {y}", HttpMethod::Get, p).unwrap();
    assert_eq!(q, "SELECT a FROM t WHERE x = ? AND y = ?");
    assert_eq!(v, vec!["1".to_string(), "2".to_string()]);
}

#[test]
fn reordered_placeholders_reorder_values() {
    let p = params(&[("x", client("1")), ("y", client("2"))]);
    let (q, v) = run("SELECT a FROM t WHERE y = {y} AND x = {x}", HttpMethod::Get, p).unwrap();
    assert_eq!(q, "SELECT a FROM t WHERE y = ? AND x = ?");
    assert_eq!(v, vec!["2".to_string(), "1".to_string()]);
}

#[test]
fn put_strips_missing_assignments() {
    let p = params(&[("a", client("A")), ("id", client("9")), ("b", ExecuteParamValue::Client(None))]);
    let (q, v) = run("UPDATE t SET a = {a}, b = {b}, c = {c} WHERE id = {id}", HttpMethod::Put, p).unwrap();
    assert_eq!(q, "UPDATE t SET a = ? WHERE id = ?");
    assert_eq!(v, vec!["A".to_string(), "9".to_string()]);
}

#[test]
fn put_strips_leading_assignment_with_its_comma() {
    let p = params(&[("b", client("B")), ("id", client("3"))]);
    let (q, v) = run("UPDATE t SET a = {a}, b = {b} WHERE id = {id}", HttpMethod::Put, p).unwrap();
    assert_eq!(q, "UPDATE t SET  b = ? WHERE id = ?");
    assert_eq!(v, vec!["B".to_string(), "3".to_string()]);
}

#[test]
fn put_with_partial_body() {
    let p = params(&[
        ("body", client("hi")),
        ("author", ExecuteParamValue::Client(None)),
        ("id", client("7")),
    ]);
    let (q, v) = run(
        "UPDATE posts SET body = {body}, author = {author} WHERE id = {id}",
        HttpMethod::Put,
        p,
    )
    .unwrap();
    assert_eq!(q, "UPDATE posts SET body = ? WHERE id = ?");
    assert_eq!(v, vec!["hi".to_string(), "7".to_string()]);
}

#[test]
fn internal_values_are_inlined_and_client_values_bound() {
    let p = params(&[("who", ExecuteParamValue::Internal("42".to_string())), ("x", client("7"))]);
    let (q, v) = run("SELECT * FROM t WHERE owner = |who| AND x = {x}", HttpMethod::Get, p).unwrap();
    assert_eq!(q, "SELECT * FROM t WHERE owner = 42 AND x = ?");
    assert_eq!(v, vec!["7".to_string()]);
}

#[test]
fn get_with_path_param() {
    let p = params(&[("id", client("7"))]);
    let (q, v) = run("SELECT * FROM posts WHERE id = {id}", HttpMethod::Get, p).unwrap();
    assert_eq!(q, "SELECT * FROM posts WHERE id = ?");
    assert_eq!(v, vec!["7".to_string()]);
}

#[test]
fn spaced_placeholders_are_trimmed() {
    let p = params(&[("body", client("x"))]);
    let (q, v) = run("INSERT INTO posts (body) VALUES ({ body })", HttpMethod::Post, p).unwrap();
    assert_eq!(q, "INSERT INTO posts (body) VALUES (?)");
    assert_eq!(v, vec!["x".to_string()]);
}

#[test]
fn repeated_placeholder_binds_twice() {
    let p = params(&[("id", client("5"))]);
    let (q, v) = run("SELECT * FROM t WHERE a = {id} OR b = {id}", HttpMethod::Get, p).unwrap();
    assert_eq!(q, "SELECT * FROM t WHERE a = ? OR b = ?");
    assert_eq!(v, vec!["5".to_string(), "5".to_string()]);
}

#[test]
fn missing_client_value_fails_outside_put() {
    let p = params(&[("x", ExecuteParamValue::Client(None))]);
    match run("SELECT * FROM t WHERE x = {x}", HttpMethod::Get, p) {
        Err(ExecuteError::RequiredParamMissing { name }) => assert_eq!(name, "x"),
        other => panic!("unexpected {:?}", other),
    }
}

#[test]
fn missing_internal_value_fails() {
    let p = params(&[("who", client("1"))]);
    match run("SELECT * FROM t WHERE owner = |who|", HttpMethod::Get, p) {
        Err(ExecuteError::RuntimeParamMissing { name }) => assert_eq!(name, "who"),
        other => panic!("unexpected {:?}", other),
    }
}

#[test]
fn client_value_does_not_fill_internal_placeholder() {
    let p = params(&[("user_id", client("1"))]);
    assert!(matches!(
        run("DELETE FROM t WHERE u = |user_id|", HttpMethod::Delete, p),
        Err(ExecuteError::RuntimeParamMissing { .. })
    ));
}

#[test]
fn template_without_placeholders_is_unchanged() {
    let (q, v) = run("SELECT * FROM posts", HttpMethod::Get, ExecuteParams::new()).unwrap();
    assert_eq!(q, "SELECT * FROM posts");
    assert!(v.is_empty());
}

#[test]
fn later_insert_replaces_parameter() {
    let mut p = ExecuteParams::new();
    p.insert("a".to_string(), client("1"));
    p.insert("a".to_string(), client("2"));
    match p.get("a") {
        Some(ExecuteParamValue::Client(Some(v))) => assert_eq!(v, "2"),
        other => panic!("unexpected {:?}", other),
    }
    assert!(p.get("b").is_none());
}

#[test]
fn execute_error_answers_500() {
    let e = ExecuteError::RequiredParamMissing { name: "x".to_string() };
    match e.to_request_error() {
        RequestError::Expected { status, message } => {
            assert_eq!(status, 500);
            assert_eq!(message, "The endpoint requires 'x', but it wasn't provided in the request.");
        }
        other => panic!("unexpected {:?}", other),
    }
}

#[test]
fn handler_without_action_answers_500() {
    let e = Endpoint::default();
    match ExecuteHandler::query(&e, ExecuteParams::new()) {
        Err(RequestError::Expected { status, .. }) => assert_eq!(status, 500),
        other => panic!("unexpected {:?}", other),
    }
}

#[test]
fn handler_runs_query_action() {
    let mut e = Endpoint::default();
    e.execute = Some(Execute::MySql(MySQLExecute { query: "SELECT * FROM t WHERE id = {id}".to_string() }));
    let p = params(&[("id", client("4"))]);
    let q = ExecuteHandler::query(&e, p).unwrap();
    assert_eq!(q.query, "SELECT * FROM t WHERE id = ?");
    assert_eq!(q.values, vec!["4".to_string()]);
}

#[test]
fn hook_action_is_not_run() {
    let ext = ExecuteExt(Execute::Hook { fn_name: "f".to_string() });
    assert!(matches!(
        ext.execute(HttpMethod::Get, ExecuteParams::new()),
        Err(RequestError::Expected { status: 500, .. })
    ));
}
