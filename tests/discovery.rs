use waveless::checksum::{render_schema, schema_checksum, verify_checksums, ChecksumError, DatabaseChecksum};
use waveless::discovery::{table_endpoints, ColumnInfo, DiscoveryError, TableSchema};
use waveless::endpoint::{Execute, HttpMethod};
use waveless::project::MySQLSchemaDiscoveryMethod;

fn column(name: &str, ty: &str, pk: bool) -> ColumnInfo {
    ColumnInfo { name: name.to_string(), column_type: ty.to_string(), is_primary: pk }
}

fn posts() -> TableSchema {
    TableSchema {
        name: "posts".to_string(),
        columns: vec![column("id", "INT", true), column("body", "TEXT", false)],
    }
}

fn query_of(e: &waveless::endpoint::Endpoint) -> String {
    match &e.execute {
        Some(Execute::MySql(m)) => m.query.clone(),
        _ => panic!("no query"),
    }
}

#[test]
fn one_table_gives_five_endpoints() {
    let eps = table_endpoints(&posts(), "main").unwrap();
    let shape: Vec<(HttpMethod, String, Option<String>)> =
        eps.iter().map(|e| (e.method, e.route.clone(), e.version.clone())).collect();
    let v1 = Some("v1".to_string());
    assert_eq!(
        shape,
        vec![
            (HttpMethod::Get, "posts/{id}".to_string(), v1.clone()),
            (HttpMethod::Get, "posts".to_string(), v1.clone()),
            (HttpMethod::Post, "posts".to_string(), v1.clone()),
            (HttpMethod::Put, "posts/{id}".to_string(), v1.clone()),
            (HttpMethod::Delete, "posts/{id}".to_string(), v1.clone()),
        ]
    );
    assert_eq!(query_of(&eps[0]), "SELECT * FROM posts WHERE id = {id}");
    assert_eq!(query_of(&eps[1]), "SELECT * FROM posts");
    assert_eq!(query_of(&eps[2]), "INSERT INTO posts (body) VALUES ({body})");
    assert_eq!(eps[2].body_params, vec!["body".to_string()]);
    assert_eq!(query_of(&eps[3]), "UPDATE posts SET body = {body} WHERE id = {id}");
    assert_eq!(eps[3].body_params, vec!["body".to_string()]);
    assert_eq!(query_of(&eps[4]), "DELETE FROM posts WHERE id = {id}");
    assert!(eps[4].body_params.is_empty());
    for e in &eps {
        assert!(e.auto_generated);
        assert!(!e.require_auth);
        assert!(e.allowed_roles.is_empty());
        assert_eq!(e.target_database, Some("main".to_string()));
    }
    assert_eq!(eps[0].id, "posts_GetOne");
    assert_eq!(eps[4].tags, vec!["posts".to_string(), "delete".to_string()]);
}

#[test]
fn route_is_lower_cased_and_queries_keep_the_name() {
    let t = TableSchema {
        name: "Users".to_string(),
        columns: vec![column("uid", "INT", true), column("name", "TEXT", false), column("mail", "TEXT", false)],
    };
    let eps = table_endpoints(&t, "db").unwrap();
    assert_eq!(eps[1].route, "users");
    assert_eq!(eps[0].route, "users/{id}");
    assert_eq!(query_of(&eps[2]), "INSERT INTO Users (name, mail) VALUES ({name}, {mail})");
    assert_eq!(query_of(&eps[3]), "UPDATE Users SET name = {name}, mail = {mail} WHERE uid = {id}");
}

#[test]
fn table_without_primary_key_fails() {
    let t = TableSchema { name: "logs".to_string(), columns: vec![column("line", "TEXT", false)] };
    match table_endpoints(&t, "main") {
        Err(DiscoveryError::MissingPrimaryKey { table }) => assert_eq!(table, "logs"),
        other => panic!("unexpected {:?}", other.map(|v| v.len())),
    }
}

#[test]
fn skipped_tables_get_no_endpoints() {
    let secret = TableSchema { name: "secret".to_string(), columns: vec![column("x", "TEXT", false)] };
    let m = MySQLSchemaDiscoveryMethod { skip_tables: vec!["secret".to_string()] };
    let eps = m.discover_endpoints(&vec![secret, posts()], "main").unwrap();
    assert_eq!(eps.inner.len(), 5);
    assert!(eps.inner.iter().all(|e| e.route.starts_with("posts")));
}

#[test]
fn kept_table_without_key_fails_discovery() {
    let bad = TableSchema { name: "bad".to_string(), columns: vec![] };
    let m = MySQLSchemaDiscoveryMethod { skip_tables: vec![] };
    assert!(matches!(
        m.discover_endpoints(&vec![posts(), bad], "main"),
        Err(DiscoveryError::MissingPrimaryKey { .. })
    ));
}

#[test]
fn schema_rendering_and_checksum() {
    let tables = vec![posts()];
    assert_eq!(render_schema(&tables), "posts(id INT PRIMARY KEY, body TEXT)\n");
    let c = schema_checksum("main", &tables);
    assert_eq!(c.database_id, "main");
    assert_eq!(c.checksum, vec![45u8, 247, 237, 16]);
}

#[test]
fn checksum_changes_with_schema() {
    let mut other = posts();
    other.columns[1].column_type = "VARCHAR(10)".to_string();
    assert_ne!(schema_checksum("main", &vec![posts()]).checksum, schema_checksum("main", &vec![other]).checksum);
}

#[test]
fn drifted_schema_is_refused() {
    let recorded = vec![DatabaseChecksum { database_id: "main".to_string(), checksum: vec![1, 2, 3, 4] }];
    let live = vec![DatabaseChecksum { database_id: "main".to_string(), checksum: vec![1, 2, 3, 5] }];
    match verify_checksums(&recorded, &vec!["main".to_string()], &live) {
        Err(ChecksumError::SchemaChanged { database_id }) => assert_eq!(database_id, "main"),
        other => panic!("unexpected {:?}", other),
    }
}

#[test]
fn unchanged_schema_is_accepted() {
    let recorded = vec![DatabaseChecksum { database_id: "main".to_string(), checksum: vec![1, 2, 3, 4] }];
    assert!(verify_checksums(&recorded, &vec!["main".to_string()], &recorded.clone()).is_ok());
}

#[test]
fn checksum_of_unknown_database_is_refused() {
    let recorded = vec![DatabaseChecksum { database_id: "other".to_string(), checksum: vec![0] }];
    assert!(matches!(
        verify_checksums(&recorded, &vec!["main".to_string()], &recorded.clone()),
        Err(ChecksumError::UnknownDatabase { .. })
    ));
}

#[test]
fn missing_live_checksum_counts_as_drift() {
    let recorded = vec![DatabaseChecksum { database_id: "main".to_string(), checksum: vec![0] }];
    assert!(matches!(
        verify_checksums(&recorded, &vec!["main".to_string()], &vec![]),
        Err(ChecksumError::SchemaChanged { .. })
    ));
}
