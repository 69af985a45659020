//! The top-level cache handed to the rest of the application: for now it
//! owns the settings registry alone.

use vstd::prelude::*;
use crate::environment::EnvVars;
use crate::errors::ProviderDiscoveryError;
use crate::providers::secrets::{discovery_error_ok, discovery_fails};
use crate::settings::{settings_resolved, spec_use_secrets_provider, SettingsCache};

verus! {

pub struct Cache {
    pub settings: SettingsCache,
}

impl Cache {
    /// Builds the process-wide cache from the environment snapshot.
    pub fn new(env: &EnvVars, debug_build: bool) -> (r: Result<Cache, ProviderDiscoveryError>)
        ensures
            match r {
                Ok(c) => settings_resolved(c.settings, env.vars@, debug_build),
                Err(e) => discovery_error_ok(env.vars@, e),
            },
            r is Err <==> spec_use_secrets_provider(env.vars@) && discovery_fails(env.vars@),
    {
        let settings = match SettingsCache::new(env, debug_build) {
            Ok(s) => s,
            Err(e) => {
                return Err(e);
            },
        };
        Ok(Cache { settings })
    }
}

} // verus!
