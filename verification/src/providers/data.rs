//! Business-data payload shapes fetched from secret providers.

use vstd::prelude::*;

verus! {

/// Connection data for the business database, as a provider hands it
/// out.
pub struct BusinessDataProviderData {
    pub database_name: String,
    pub host: String,
    pub password: String,
    pub port: i32,
    pub url: String,
    pub url_prefix: Option<String>,
    pub user: String,
}

/// The same payload under the key names the secret store uses.
pub struct PostgresData {
    pub pg_database_name: String,
    pub pg_host: String,
    pub pg_password: String,
    pub pg_port: i32,
    pub pg_url: String,
    pub pg_url_prefix: String,
    pub pg_user: String,
}

/// The business-database backend; its client lives with the embedding
/// application.
pub struct Postgres {
}

} // verus!
