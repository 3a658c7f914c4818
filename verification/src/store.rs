//! The configuration-store layer as the core sees it: connection
//! configuration, the reload primitive that turns a snapshot of route
//! documents into a fresh routing table, and statistics. The store itself
//! (connections, queries, the change-notification stream) runs outside the
//! core and hands full snapshots in.

use vstd::prelude::*;
use crate::errors::ConfigError;
use crate::route::{spec_route_valid, validate_route, Route};
use crate::router::{spec_build, table_wf, RouterTable};

verus! {

/// Connection configuration of the persistent store.
#[derive(Debug)]
pub struct DatabaseConfig {
    /// Path of an embedded database, or URL of a remote one.
    pub connection: String,
    /// Namespace.
    pub namespace: String,
    /// Database name within the namespace.
    pub database: String,
    /// Embedded storage (true) or a remote connection (false).
    pub embedded: bool,
    /// Username for a remote connection.
    pub username: Option<String>,
    /// Password for a remote connection.
    pub password: Option<String>,
}

impl DatabaseConfig {
    /// The default configuration: an embedded database under the local data
    /// directory.
    pub fn default_config() -> (c: DatabaseConfig)
        ensures
            c.connection@ == "./data/gateway.db"@,
            c.namespace@ == "gateway"@,
            c.database@ == "config"@,
            c.embedded,
            c.username is None,
            c.password is None,
    {
        DatabaseConfig {
            connection: "./data/gateway.db".to_owned(),
            namespace: "gateway".to_owned(),
            database: "config".to_owned(),
            embedded: true,
            username: None,
            password: None,
        }
    }

    /// Configuration for an embedded database under a path.
    pub fn embedded(path: &str) -> (c: DatabaseConfig)
        ensures
            c.connection@ == path@,
            c.embedded,
            c.namespace@ == "gateway"@,
            c.database@ == "config"@,
            c.username is None,
            c.password is None,
    {
        DatabaseConfig { connection: path.to_owned(), ..DatabaseConfig::default_config() }
    }

    /// Configuration for a remote store with credentials.
    pub fn remote(url: &str, username: &str, password: &str) -> (c: DatabaseConfig)
        ensures
            c.connection@ == url@,
            !c.embedded,
            (match c.username {
                Some(ref u) => u@ == username@,
                None => false,
            }),
            (match c.password {
                Some(ref p) => p@ == password@,
                None => false,
            }),
            c.namespace@ == "gateway"@,
            c.database@ == "config"@,
    {
        DatabaseConfig {
            connection: url.to_owned(),
            embedded: false,
            username: Some(username.to_owned()),
            password: Some(password.to_owned()),
            ..DatabaseConfig::default_config()
        }
    }
}

/// Validate a batch of route documents before they are written: `Ok` exactly
/// when every document is valid.
pub fn validate_routes(routes: &Vec<Route>) -> (r: Result<(), ConfigError>)
    ensures
        r.is_ok() <==> forall|i: int| 0 <= i < routes@.len()
            ==> spec_route_valid((#[trigger] routes@[i])@),
{
    let mut i: usize = 0;
    while i < routes.len()
        invariant
            i <= routes@.len(),
            forall|j: int| 0 <= j < i ==> spec_route_valid((#[trigger] routes@[j])@),
        decreases routes@.len() - i,
    {
        match validate_route(&routes[i]) {
            Ok(_) => {},
            Err(e) => {
                return Err(e);
            },
        }
        i += 1;
    }
    Ok(())
}

/// The reload primitive: build a fresh routing table from a full snapshot
/// of route documents. The table holds exactly the active snapshot routes;
/// two reloads from the same snapshot build identical tables.
pub fn reload(routes: Vec<Route>) -> (t: RouterTable)
    ensures
        t@ == spec_build(routes@.map_values(|r: Route| r@)),
        table_wf(t@),
{
    crate::router::build_router_map(routes)
}

/// Statistics about the current configuration.
#[derive(Debug, Clone)]
pub struct ConfigStats {
    /// Total routes in the published table.
    pub total_routes: usize,
    /// Active routes; every published route is active.
    pub active_routes: usize,
    /// Distinct upstream URLs.
    pub unique_upstreams: usize,
}

/// Statistics of a published routing table.
pub fn get_config_stats(table: &RouterTable) -> (s: ConfigStats)
    ensures
        s.total_routes == table@.len(),
        s.active_routes == table@.len(),
        s.unique_upstreams == crate::router::spec_upstreams(table@).len(),
{
    let stats = crate::router::router_stats(table);
    ConfigStats {
        total_routes: stats.total_routes,
        active_routes: stats.active_routes,
        unique_upstreams: stats.unique_upstreams,
    }
}

/// A system user of the admin surface.
#[derive(Debug)]
pub struct User {
    /// Identifier.
    pub id: String,
    /// Login name.
    pub username: String,
    /// The bcrypt hash of the password.
    pub password_hash: String,
    /// Role names.
    pub roles: Vec<String>,
    /// Whether the user may log in.
    pub active: bool,
    /// Creation instant, Unix milliseconds.
    pub created_at_ms: u64,
}

/// A role with a set of permissions.
#[derive(Debug)]
pub struct Role {
    /// Identifier.
    pub id: String,
    /// Role name.
    pub name: String,
    /// Permission names.
    pub permissions: Vec<String>,
    /// Creation instant, Unix milliseconds.
    pub created_at_ms: u64,
}

/// An API key for outbound gateway access.
#[derive(Debug)]
pub struct ApiKey {
    /// Identifier.
    pub id: String,
    /// Display name.
    pub name: String,
    /// The SHA-256 hash of the key.
    pub key_hash: String,
    /// Leading characters kept for display.
    pub prefix: String,
    /// Owner.
    pub owner_id: String,
    /// Granted scopes.
    pub scopes: Vec<String>,
    /// Expiry instant, Unix milliseconds, if any.
    pub expires_at_ms: Option<u64>,
    /// Creation instant, Unix milliseconds.
    pub created_at_ms: u64,
    /// Last use, Unix milliseconds, if any.
    pub last_used_at_ms: Option<u64>,
}

} // verus!
