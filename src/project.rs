//! The project model carried by the build artifact: general settings, databases,
//! authentication backends, executor settings, endpoints and schema checksums.

use vstd::prelude::*;

use crate::checksum::DatabaseChecksum;
use crate::endpoint::{Endpoint, Endpoints, HttpMethod};

verus! {

/// Connection settings of a MySQL database.
#[derive(Clone, Debug)]
pub struct MySQLDBConnectionConfig {
    pub host: String,
    pub port: u16,
    pub username: String,
    pub password: String,
    pub db: String,
}

/// How a database is reached.
#[derive(Clone, Debug)]
pub enum DatabaseConnection {
    MySql(MySQLDBConnectionConfig),
    /// Reserved extension point, not run by the core.
    ExternalModule { id: String, config: String },
}

/// How a database's schema is reflected to generate endpoints.
#[derive(Clone, Debug)]
pub struct MySQLSchemaDiscoveryMethod {
    /// Tables that get no generated endpoints.
    pub skip_tables: Vec<String>,
}

/// One configured database.
#[derive(Clone, Debug)]
pub struct DatabaseConfig {
    /// Unique identifier.
    pub id: String,
    /// Exactly one database of a project is primary.
    pub is_primary: bool,
    pub connection: DatabaseConnection,
    /// Endpoint generation from the reflected schema, when set.
    pub schema_discovery: Option<MySQLSchemaDiscoveryMethod>,
    /// Whether the build records the schema's checksum.
    pub checksum_schema: bool,
    pub pool_min_size: Option<u64>,
    pub pool_max_size: Option<u64>,
}

/// A credential-checking backend.
#[derive(Clone, Debug)]
pub enum AuthenticationMethod {
    /// Name and password columns of a SQL table.
    SqlNamePassword {
        database_id: Option<String>,
        table_name: String,
        user_field: String,
        name_field: String,
        password_field: String,
    },
    ExternalModule { id: String, config: String },
}

/// A session backend.
#[derive(Clone, Debug)]
pub enum SessionMethod {
    /// `(token, user, created_at)` rows of a SQL table.
    SqlToken {
        database_id: Option<String>,
        table_name: String,
        token_field: String,
        user_field: String,
        created_field: String,
        max_age: u64,
    },
    ExternalModule { id: String, config: String },
}

/// A role backend.
#[derive(Clone, Debug)]
pub enum RoleMethod {
    /// `(user, role)` rows of a SQL table.
    SqlUser { database_id: Option<String>, table_name: String, user_field: String, role_field: String },
    ExternalModule { id: String, config: String },
}

/// Authentication settings.
#[derive(Clone, Debug)]
pub struct Authentication {
    pub backends: Vec<AuthenticationMethod>,
    pub session: SessionMethod,
    pub roles: Option<RoleMethod>,
    pub allow_registration: bool,
}

/// Admin settings.
#[derive(Clone, Debug)]
pub struct Admin {
    pub enable_panel: bool,
    /// Roles considered administrators.
    pub allowed_roles: Vec<String>,
    pub statistics: bool,
}

/// General settings shared by the compiler and the runtime.
#[derive(Clone, Debug)]
pub struct General {
    pub name: String,
    pub databases: Vec<DatabaseConfig>,
    pub authentication: Option<Authentication>,
    pub admin: Admin,
}

/// Runtime settings of the executor.
#[derive(Clone, Debug)]
pub struct Executor {
    /// `host:port`, overridable at run time.
    pub listening_addr: Option<String>,
    /// Directory of static files to serve.
    pub static_files: Option<String>,
    /// Prefix of every endpoint route.
    pub api_prefix: String,
    /// Whether start-up compares the recorded schema checksums with the live ones.
    pub check_database_checksums: bool,
    /// Seconds announced in `Cache-Control: max-age`.
    pub http_cache_time: u64,
}

/// The executor settings under their other name.
pub type Server = Executor;

/// Everything the runtime serves: the artifact's content.
#[derive(Clone, Debug)]
pub struct Build {
    pub general: General,
    pub executor: Executor,
    pub endpoints: Endpoints,
    pub database_checksums: Vec<DatabaseChecksum>,
}

/// The name of a credential backend, as the login's `AuthenticationType` header
/// names it.
pub fn authentication_name(m: &AuthenticationMethod) -> (r: String)
    ensures
        m is SqlNamePassword ==> r@ == "mysqlsimple"@,
        m matches AuthenticationMethod::ExternalModule { id, .. } ==> r@ == id@,
{
    match m {
        AuthenticationMethod::SqlNamePassword { .. } => String::from_str("mysqlsimple"),
        AuthenticationMethod::ExternalModule { id, .. } => id.clone(),
    }
}

/// The lifetime of the sessions of a session backend, when it has one.
pub fn session_max_age(s: &SessionMethod) -> (r: Option<u64>)
    ensures
        match s {
            SessionMethod::SqlToken { max_age, .. } => r == Some(*max_age),
            SessionMethod::ExternalModule { .. } => r is None,
        },
{
    match s {
        SessionMethod::SqlToken { max_age, .. } => Some(*max_age),
        SessionMethod::ExternalModule { .. } => None,
    }
}

/// Whether the human-readable form leaves a flag out: in the binary form every field
/// is written; otherwise a false flag is left out.
pub fn should_skip(data: &bool, binary_mode: bool) -> (r: bool)
    ensures
        r == (!binary_mode && !*data),
{
    !binary_mode && !*data
}

/// Whether the human-readable form leaves an optional field out: only outside the
/// binary form, and only when it is none.
pub fn should_skip_option<T>(data: &Option<T>, binary_mode: bool) -> (r: bool)
    ensures
        r == (!binary_mode && data is None),
{
    !binary_mode && data.is_none()
}

/// Whether the human-readable form leaves a list out: only outside the binary form,
/// and only when it is empty.
pub fn should_skip_cheapvec<T>(data: &Vec<T>, binary_mode: bool) -> (r: bool)
    ensures
        r == (!binary_mode && data@.len() == 0),
{
    !binary_mode && data.len() == 0
}

fn text(s: &str) -> (r: String)
    ensures
        r@ == s@,
{
    String::from_str(s)
}

impl Default for Executor {
    fn default() -> (r: Executor)
        ensures
            r.api_prefix@ == "/api"@,
            r.http_cache_time == 0,
            r.check_database_checksums,
    {
        Executor {
            listening_addr: Some(text("127.0.0.1:8080")),
            static_files: Some(text("./static/")),
            api_prefix: text("/api"),
            check_database_checksums: true,
            http_cache_time: 0,
        }
    }
}

impl Default for Admin {
    fn default() -> (r: Admin)
        ensures
            r.enable_panel,
            r.allowed_roles@.len() == 1 && r.allowed_roles@[0]@ == "admin"@,
            !r.statistics,
    {
        let mut roles: Vec<String> = Vec::new();
        roles.push(text("admin"));
        Admin { enable_panel: true, allowed_roles: roles, statistics: false }
    }
}

impl Default for Authentication {
    fn default() -> (r: Authentication)
        ensures
            r.backends@.len() >= 1 && r.backends@[0] is SqlNamePassword,
            r.session matches SessionMethod::SqlToken { database_id, max_age, .. } && database_id
                is None && max_age == 86400,
            r.roles matches Some(RoleMethod::SqlUser { database_id, .. }) && database_id is None,
    {
        let mut backends: Vec<AuthenticationMethod> = Vec::new();
        backends.push(
            AuthenticationMethod::SqlNamePassword {
                database_id: None,
                table_name: text("users_auth"),
                user_field: text("user_id"),
                name_field: text("email"),
                password_field: text("password"),
            },
        );
        backends.push(
            AuthenticationMethod::ExternalModule {
                id: text("ldap_example_server"),
                config: text("..."),
            },
        );
        Authentication {
            backends,
            session: SessionMethod::SqlToken {
                database_id: None,
                table_name: text("sessions_auth"),
                token_field: text("session_id"),
                user_field: text("user_id"),
                created_field: text("created_at"),
                max_age: 86400,
            },
            roles: Some(
                RoleMethod::SqlUser {
                    database_id: None,
                    table_name: text("roles_auth"),
                    user_field: text("user_id"),
                    role_field: text("role"),
                },
            ),
            allow_registration: true,
        }
    }
}

impl Default for General {
    /// A project with a primary MySQL database `main`, an external secondary one,
    /// and the default authentication and admin settings.
    fn default() -> (r: General)
        ensures
            r.databases@.len() == 2,
            r.databases@[0].id@ == "main"@ && r.databases@[0].is_primary,
            r.databases@[0].connection is MySql,
            !r.databases@[1].is_primary,
            r.authentication is Some,
    {
        let mut skip: Vec<String> = Vec::new();
        skip.push(text("_private_table"));
        let mut databases: Vec<DatabaseConfig> = Vec::new();
        databases.push(
            DatabaseConfig {
                id: text("main"),
                is_primary: true,
                connection: DatabaseConnection::MySql(
                    MySQLDBConnectionConfig {
                        host: text("127.0.0.1"),
                        port: 3306,
                        username: text("example_user"),
                        password: text("example_password"),
                        db: text("example_db"),
                    },
                ),
                schema_discovery: Some(MySQLSchemaDiscoveryMethod { skip_tables: skip }),
                checksum_schema: true,
                pool_min_size: None,
                pool_max_size: None,
            },
        );
        databases.push(
            DatabaseConfig {
                id: text("secondary"),
                is_primary: false,
                connection: DatabaseConnection::ExternalModule {
                    id: text("custom_database_driver"),
                    config: text("..."),
                },
                schema_discovery: None,
                checksum_schema: false,
                pool_min_size: None,
                pool_max_size: None,
            },
        );
        General {
            name: text("Example"),
            databases,
            authentication: Some(Authentication::default()),
            admin: Admin::default(),
        }
    }
}

impl Default for Endpoint {
    /// An endpoint answering `GET` on the empty route of version `v1`, with no action.
    fn default() -> (r: Endpoint)
        ensures
            r.id@.len() == 0,
            r.route@.len() == 0,
            r.version matches Some(v) && v@ == "v1"@,
            r.method == HttpMethod::Get,
            r.execute is None,
            !r.require_auth,
            !r.auto_generated,
    {
        Endpoint {
            id: String::new(),
            route: String::new(),
            version: Some(text("v1")),
            method: HttpMethod::Get,
            target_database: None,
            execute: None,
            description: None,
            tags: Vec::new(),
            query_params: Vec::new(),
            body_params: Vec::new(),
            require_auth: false,
            allowed_roles: Vec::new(),
            capture_all_params: false,
            inject_user_id: false,
            deprecated: false,
            auto_generated: false,
        }
    }
}

impl Default for Build {
    /// The default project with one default endpoint and no checksums.
    fn default() -> (r: Build)
        ensures
            r.endpoints@.len() == 1,
            r.database_checksums@.len() == 0,
            r.general.databases@.len() == 2,
            r.executor.api_prefix@ == "/api"@,
    {
        let mut endpoints = Endpoints::empty();
        let _ = endpoints.add(Endpoint::default());
        Build {
            general: General::default(),
            executor: Executor::default(),
            endpoints,
            database_checksums: Vec::new(),
        }
    }
}

} // verus!
