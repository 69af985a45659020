//! Assembly of the storage layer's connection URL from required
//! environment settings. Connecting, pooling and seeding against a live
//! database are the embedding application's work; this module fixes
//! exactly which settings are required and what URL they produce.

use vstd::prelude::*;
use crate::environment::{env_lookup, get_env_var, EnvVars};
use crate::errors::ConfigError;

verus! {

/// The URL the six database settings assemble to:
/// `<prefix>://<user>:<password>@<host>:<port>/<name>`.
pub open spec fn spec_database_url(
    prefix: Seq<char>,
    user: Seq<char>,
    password: Seq<char>,
    host: Seq<char>,
    port: Seq<char>,
    name: Seq<char>,
) -> Seq<char> {
    prefix + "://"@ + user + ":"@ + password + "@"@ + host + ":"@ + port + "/"@ + name
}

/// Builds the database URL from the six required `DATABASE_*` settings.
/// Every one of them is required: the first missing one is reported as a
/// fatal configuration error, and startup stops.
pub fn generate_database_url(env: &EnvVars) -> (r: Result<String, ConfigError>)
    ensures
        ({
            let p = env_lookup(env.vars@, "DATABASE_URL_PREFIX"@);
            let u = env_lookup(env.vars@, "DATABASE_USER"@);
            let w = env_lookup(env.vars@, "DATABASE_PASSWORD"@);
            let h = env_lookup(env.vars@, "DATABASE_HOST"@);
            let t = env_lookup(env.vars@, "DATABASE_PORT"@);
            let n = env_lookup(env.vars@, "DATABASE_NAME"@);
            match r {
                Ok(url) => p is Some && u is Some && w is Some && h is Some && t is Some
                    && n is Some && url@ == spec_database_url(
                    p->Some_0,
                    u->Some_0,
                    w->Some_0,
                    h->Some_0,
                    t->Some_0,
                    n->Some_0,
                ),
                Err(e) => (p is None || u is None || w is None || h is None || t is None
                    || n is None) && (e matches ConfigError::NotDefined(v) && (if p is None {
                    v@ == "DATABASE_URL_PREFIX"@
                } else if u is None {
                    v@ == "DATABASE_USER"@
                } else if w is None {
                    v@ == "DATABASE_PASSWORD"@
                } else if h is None {
                    v@ == "DATABASE_HOST"@
                } else if t is None {
                    v@ == "DATABASE_PORT"@
                } else {
                    v@ == "DATABASE_NAME"@
                })),
            }
        }),
{
    let url_prefix = get_env_var::<String>(env, "DATABASE_URL_PREFIX", None)?;
    let user = get_env_var::<String>(env, "DATABASE_USER", None)?;
    let password = get_env_var::<String>(env, "DATABASE_PASSWORD", None)?;
    let host = get_env_var::<String>(env, "DATABASE_HOST", None)?;
    let port = get_env_var::<String>(env, "DATABASE_PORT", None)?;
    let name = get_env_var::<String>(env, "DATABASE_NAME", None)?;
    let mut full_url = url_prefix;
    full_url.append("://");
    full_url.append(user.as_str());
    full_url.append(":");
    full_url.append(password.as_str());
    full_url.append("@");
    full_url.append(host.as_str());
    full_url.append(":");
    full_url.append(port.as_str());
    full_url.append("/");
    full_url.append(name.as_str());
    Ok(full_url)
}

} // verus!
