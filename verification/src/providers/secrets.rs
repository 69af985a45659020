//! Discovery of configured secret-store providers: the environment
//! declares a comma-separated list of provider names; each name is
//! normalized to upper case to form the prefix under which that
//! provider's own connection variables live, and names that match a
//! known provider kind (only the vault store, currently) are
//! constructed and stored under their lower-cased name. Unrecognized
//! names are skipped; a recognized name with malformed parameters is
//! fatal.

use vstd::prelude::*;
use crate::environment::{env_lookup, parse_i32, EnvValue, EnvVars};
use crate::errors::ProviderDiscoveryError;
use crate::providers::vault::{Vault, VaultEnvData, VaultSecretsEngine, VAULT_SECRETS_PROVIDER_NAME};
use crate::providers::{DataProvider, DataProvision, DataProviderConnectivity};
use crate::strings::{
    contains_seq, lower_of, split_commas, split_commas_exec, str_contains, upper_of,
};
use crate::web::URLData;

verus! {

pub const SETTING_USE_SECRETS_PROVIDER: &'static str = "use_secrets_provider";

pub const ENV_USE_SECRETS_PROVIDER: &'static str = "USE_SECRETS_PROVIDER";

pub const SETTING_SECRETS_PROVIDERS: &'static str = "secrets_providers";

pub const ENV_SECRETS_PROVIDERS: &'static str = "SECRETS_PROVIDERS";

pub type SecretsProvider = DataProvider<URLData, SecretsProviderImplementation>;

pub enum SecretsProviderImplementation {
    Vault(Vault),
}

/// Whether a declared name references the vault provider kind: its
/// upper-cased form mentions the vault identifier.
pub open spec fn vault_name(n: Seq<char>) -> bool {
    contains_seq(upper_of(n), "VAULT"@)
}

/// The declared provider names, when the list variable is set.
pub open spec fn spec_provider_names(env: Seq<(String, String)>) -> Option<Seq<Seq<char>>> {
    match env_lookup(env, "SECRETS_PROVIDERS"@) {
        None => None,
        Some(raw) => Some(split_commas(raw)),
    }
}

/// Whether the connection variables under the given upper-cased prefix
/// form a valid vault declaration: the required fields are set, the
/// port is an integer, and the optional single-use flag, when present,
/// is a boolean.
pub open spec fn vault_env_ok(env: Seq<(String, String)>, up: Seq<char>) -> bool {
    &&& env_lookup(env, up + "_HOST"@) is Some
    &&& match env_lookup(env, up + "_PORT"@) {
        Some(p) => crate::environment::parse_i32_spec(p) is Some,
        None => false,
    }
    &&& env_lookup(env, up + "_URL"@) is Some
    &&& env_lookup(env, up + "_ENGINE"@) is Some
    &&& env_lookup(env, up + "_LOGIN_ID"@) is Some
    &&& env_lookup(env, up + "_LOGIN_PASS"@) is Some
    &&& match env_lookup(env, up + "_SINGLE_USE"@) {
        None => true,
        Some(b) => b == "true"@ || b == "false"@,
    }
}

/// Builds the environment-variable name `<up><suffix>`.
fn var_name(up: &String, suffix: &str) -> (r: String)
    ensures
        r@ == up@ + suffix@,
{
    let mut v = up.clone();
    v.append(suffix);
    v
}

/// Reads the list of declared provider names. Its absence is fatal: the
/// use-providers flag is on, so an empty deployment is broken.
pub fn load_secrets_providers_names(env: &EnvVars) -> (r: Result<
    Vec<String>,
    ProviderDiscoveryError,
>)
    ensures
        match r {
            Ok(names) => spec_provider_names(env.vars@) matches Some(ns) && ns.len()
                == names@.len() && forall|i: int| 0 <= i < names@.len() ==> names@[i]@ == ns[i],
            Err(e) => spec_provider_names(env.vars@) is None && e is ProvidersListMissing,
        },
{
    let raw = env.get(ENV_SECRETS_PROVIDERS);
    match raw {
        Some(value) => Ok(split_commas_exec(value.as_str())),
        None => Err(ProviderDiscoveryError::ProvidersListMissing),
    }
}

/// Loads one provider's connection data from its prefixed environment
/// variables. A recognized provider with missing or malformed variables
/// is fatal for the deployment.
pub fn load_provider_from_env(env: &EnvVars, up: &String) -> (r: Result<
    VaultEnvData,
    ProviderDiscoveryError,
>)
    ensures
        r is Ok <==> vault_env_ok(env.vars@, up@),
        match r {
            Ok(v) => {
                &&& Some(v.spec_host()) == env_lookup(env.vars@, up@ + "_HOST"@)
                &&& match env_lookup(env.vars@, up@ + "_PORT"@) {
                    Some(p) => crate::environment::parse_i32_spec(p) == Some(v.spec_port()),
                    None => false,
                }
                &&& Some(v.spec_url()) == env_lookup(env.vars@, up@ + "_URL"@)
                &&& Some(v.spec_engine()) == env_lookup(env.vars@, up@ + "_ENGINE"@)
                &&& Some(v.spec_login_id()) == env_lookup(env.vars@, up@ + "_LOGIN_ID"@)
                &&& Some(v.spec_login_pass()) == env_lookup(env.vars@, up@ + "_LOGIN_PASS"@)
                &&& v.spec_single_use() == (match env_lookup(env.vars@, up@ + "_SINGLE_USE"@) {
                    None => None::<bool>,
                    Some(b) => if b == "true"@ {
                        Some(true)
                    } else {
                        Some(false)
                    },
                })
            },
            Err(e) => e matches ProviderDiscoveryError::ProviderEnvInvalid(n) && n@ == up@,
        },
{
    let host = match env.get(var_name(up, "_HOST").as_str()) {
        Some(v) => v,
        None => {
            return Err(ProviderDiscoveryError::ProviderEnvInvalid(up.clone()));
        },
    };
    let port_raw = match env.get(var_name(up, "_PORT").as_str()) {
        Some(v) => v,
        None => {
            return Err(ProviderDiscoveryError::ProviderEnvInvalid(up.clone()));
        },
    };
    let port = match parse_i32(port_raw.as_str()) {
        Some(v) => v,
        None => {
            return Err(ProviderDiscoveryError::ProviderEnvInvalid(up.clone()));
        },
    };
    let url = match env.get(var_name(up, "_URL").as_str()) {
        Some(v) => v,
        None => {
            return Err(ProviderDiscoveryError::ProviderEnvInvalid(up.clone()));
        },
    };
    let engine = match env.get(var_name(up, "_ENGINE").as_str()) {
        Some(v) => v,
        None => {
            return Err(ProviderDiscoveryError::ProviderEnvInvalid(up.clone()));
        },
    };
    let login_id = match env.get(var_name(up, "_LOGIN_ID").as_str()) {
        Some(v) => v,
        None => {
            return Err(ProviderDiscoveryError::ProviderEnvInvalid(up.clone()));
        },
    };
    let login_pass = match env.get(var_name(up, "_LOGIN_PASS").as_str()) {
        Some(v) => v,
        None => {
            return Err(ProviderDiscoveryError::ProviderEnvInvalid(up.clone()));
        },
    };
    let single_use = match env.get(var_name(up, "_SINGLE_USE").as_str()) {
        Some(raw) => match <bool as EnvValue>::parse_env_value(raw.as_str()) {
            Some(b) => Some(b),
            None => {
                return Err(ProviderDiscoveryError::ProviderEnvInvalid(up.clone()));
            },
        },
        None => None,
    };
    proof {
        reveal_strlit("true");
        reveal_strlit("false");
        assert("true"@.len() == 4 && "false"@.len() == 5);
        let lk = env_lookup(env.vars@, up@ + "_SINGLE_USE"@);
        if lk is Some {
            let b0 = lk->Some_0;
            if b0 == "true"@ {
                assert(single_use == Some(true));
            } else {
                assert(b0 == "false"@);
                assert(single_use == Some(false));
            }
        }
    }
    Ok(VaultEnvData::new(host, port, url, engine, login_id, login_pass, single_use))
}

/// Builds the vault provider declared under an upper-cased name: its
/// connection endpoint, its one-time provision mode, and the provider
/// state stored under the lower-cased name.
pub fn load_vault_secrets_provider(env: &EnvVars, provider_name: String, debug_build: bool) -> (r:
    Result<SecretsProvider, ProviderDiscoveryError>)
    ensures
        r is Ok <==> vault_env_ok(env.vars@, provider_name@),
        match r {
            Ok(p) => {
                &&& p.spec_name() == lower_of(provider_name@)
                &&& vault_provider_shape(p)
            },
            Err(e) => e matches ProviderDiscoveryError::ProviderEnvInvalid(n) && n@
                == provider_name@,
        },
{
    let parsed_env_data = load_provider_from_env(env, &provider_name)?;
    let connection_info = URLData {
        host: {
            let h: &str = crate::web::URLInfo::get_host(&parsed_env_data);
            h.to_owned()
        },
        port: crate::web::URLInfo::get_port(&parsed_env_data),
        url: {
            let u: &str = crate::web::URLInfo::get_url(&parsed_env_data);
            u.to_owned()
        },
    };
    let implementation = Some(
        SecretsProviderImplementation::Vault(
            Vault::new(&parsed_env_data, VaultSecretsEngine::KV2, debug_build),
        ),
    );
    let lower = provider_name.as_str().to_lowercase();
    let mut prefix = lower.clone();
    prefix.append("_");
    Ok(
        DataProvider::new(
            lower,
            prefix,
            connection_info,
            DataProvision::OneTime,
            DataProviderConnectivity::SingleConnection,
            implementation,
        ),
    )
}

/// Whether provider discovery fails for this environment: the list of
/// names is missing, or a declared vault name has malformed variables.
pub open spec fn discovery_fails(env: Seq<(String, String)>) -> bool {
    match spec_provider_names(env) {
        None => true,
        Some(ns) => !all_vault_envs_ok(env, ns),
    }
}

/// Some provider in the list carries this name.
pub open spec fn provider_with_name(ps: Seq<SecretsProvider>, name: Seq<char>) -> bool {
    exists|i: int| 0 <= i < ps.len() && ps[i].spec_name() == name
}

pub proof fn lemma_provider_with_name(ps: Seq<SecretsProvider>, name: Seq<char>, w: int)
    requires
        0 <= w < ps.len(),
        ps[w].spec_name() == name,
    ensures
        provider_with_name(ps, name),
{
    assert(0 <= w < ps.len() && ps[w].spec_name() == name);
}

/// The stored shape of every discovered provider: its prefix is its
/// name with an underscore appended, it is provisioned once over a
/// single connection, and it carries its implementation.
pub open spec fn vault_provider_shape(p: SecretsProvider) -> bool {
    &&& p.spec_prefix() == p.spec_name() + "_"@
    &&& p.spec_provision_type() is OneTime
    &&& p.spec_connectivity() is SingleConnection
    &&& p.spec_implementation() is Some
}

/// The provider's name is the normalized form of one of the declared
/// vault names: discovery constructs no provider beyond the declared
/// ones.
pub open spec fn from_declared(ns: Seq<Seq<char>>, p: SecretsProvider) -> bool {
    exists|j: int|
        0 <= j < ns.len() && vault_name(#[trigger] ns[j]) && p.spec_name() == lower_of(
            upper_of(ns[j]),
        )
}

pub proof fn lemma_from_declared(ns: Seq<Seq<char>>, p: SecretsProvider, w: int)
    requires
        0 <= w < ns.len(),
        vault_name(ns[w]),
        p.spec_name() == lower_of(upper_of(ns[w])),
    ensures
        from_declared(ns, p),
{
    assert(0 <= w < ns.len() && vault_name(ns[w]) && p.spec_name() == lower_of(upper_of(ns[w])));
}

/// What a failed discovery reports: the name list is missing entirely,
/// or the payload is the upper-cased declared vault name whose
/// variables are malformed.
pub open spec fn discovery_error_ok(env: Seq<(String, String)>, e: ProviderDiscoveryError) -> bool {
    match e {
        ProviderDiscoveryError::ProvidersListMissing => spec_provider_names(env) is None,
        ProviderDiscoveryError::ProviderEnvInvalid(n) => spec_provider_names(env) matches Some(ns)
            && exists|j: int|
            0 <= j < ns.len() && vault_name(#[trigger] ns[j]) && n@ == upper_of(ns[j])
                && !vault_env_ok(env, upper_of(ns[j])),
    }
}

/// Every declared vault name has valid connection variables.
pub open spec fn all_vault_envs_ok(env: Seq<(String, String)>, ns: Seq<Seq<char>>) -> bool {
    forall|j: int| #![trigger ns[j]] 0 <= j < ns.len() && vault_name(ns[j]) ==> vault_env_ok(
        env,
        upper_of(ns[j]),
    )
}

/// Constructs the providers for every declared name of a known kind;
/// names of no known kind are skipped.
pub fn load_secrets_providers(env: &EnvVars, providers_names: &Vec<String>, debug_build: bool) -> (r:
    Result<Vec<SecretsProvider>, ProviderDiscoveryError>)
    ensures
        r is Ok <==> all_vault_envs_ok(
            env.vars@,
            providers_names@.map_values(|s: String| s@),
        ),
        match r {
            Ok(read) => {
                &&& forall|i: int| 0 <= i < read@.len() ==> vault_provider_shape(
                    #[trigger] read@[i],
                ) && from_declared(
                    providers_names@.map_values(|s: String| s@),
                    read@[i],
                )
                &&& forall|j: int| #![trigger providers_names@[j]]
                    0 <= j < providers_names@.len() && vault_name(providers_names@[j]@)
                        ==> provider_with_name(read@, lower_of(upper_of(providers_names@[j]@)))
            },
            Err(e) => e matches ProviderDiscoveryError::ProviderEnvInvalid(n) && exists|j: int|
                0 <= j < providers_names@.len() && vault_name(#[trigger] providers_names@[j]@)
                    && n@ == upper_of(providers_names@[j]@) && !vault_env_ok(
                    env.vars@,
                    upper_of(providers_names@[j]@),
                ),
        },
{
    let mut read: Vec<SecretsProvider> = Vec::new();
    let n = providers_names.len();
    let mut i: usize = 0;
    while i < n
        invariant
            0 <= i <= n,
            n == providers_names@.len(),
            forall|k: int| 0 <= k < read@.len() ==> vault_provider_shape(#[trigger] read@[k])
                && from_declared(providers_names@.map_values(|s: String| s@), read@[k]),
            forall|j: int| #![trigger providers_names@[j]] 0 <= j < i && vault_name(
                providers_names@[j]@,
            ) ==> provider_with_name(read@, lower_of(upper_of(providers_names@[j]@))),
            forall|j: int| #![trigger providers_names@[j]] 0 <= j < i && vault_name(
                providers_names@[j]@,
            ) ==> vault_env_ok(env.vars@, upper_of(providers_names@[j]@)),
        decreases n - i,
    {
        let ghost pre = read@;
        let uppercase_name = providers_names[i].as_str().to_uppercase();
        if str_contains(uppercase_name.as_str(), VAULT_SECRETS_PROVIDER_NAME) {
            let provider = match load_vault_secrets_provider(env, uppercase_name, debug_build) {
                Ok(p) => p,
                Err(e) => {
                    proof {
                        let ns = providers_names@.map_values(|s: String| s@);
                        let j: int = i as int;
                        assert(ns[j] == providers_names@[j]@);
                        assert(vault_name(ns[j]));
                        assert(!vault_env_ok(env.vars@, upper_of(ns[j])));
                        assert(!all_vault_envs_ok(env.vars@, ns));
                        assert(vault_name(providers_names@[j]@));
                        assert(0 <= j < providers_names@.len() && vault_name(
                            providers_names@[j]@,
                        ) && !vault_env_ok(env.vars@, upper_of(providers_names@[j]@)));
                    }
                    return Err(e);
                },
            };
            read.push(provider);
            proof {
                let ns = providers_names@.map_values(|s: String| s@);
                let j: int = i as int;
                assert(ns[j] == providers_names@[j]@);
                lemma_provider_with_name(
                    read@,
                    lower_of(upper_of(providers_names@[j]@)),
                    read@.len() - 1,
                );
                lemma_from_declared(ns, read@[read@.len() - 1], j);
                assert forall|k: int| 0 <= k < read@.len() implies vault_provider_shape(
                    #[trigger] read@[k],
                ) && from_declared(ns, read@[k]) by {
                    if k < pre.len() {
                        assert(read@[k] == pre[k]);
                    }
                }
                assert forall|q: int| #![trigger providers_names@[q]] 0 <= q < i && vault_name(
                    providers_names@[q]@,
                ) implies provider_with_name(
                    read@,
                    lower_of(upper_of(providers_names@[q]@)),
                ) by {
                    let w = choose|w: int|
                        0 <= w < pre.len() && pre[w].spec_name() == lower_of(
                            upper_of(providers_names@[q]@),
                        );
                    lemma_provider_with_name(
                        read@,
                        lower_of(upper_of(providers_names@[q]@)),
                        w,
                    );
                }
            }
        }
        i += 1;
    }
    proof {
        let ns = providers_names@.map_values(|s: String| s@);
        assert forall|j: int| #![trigger ns[j]] 0 <= j < ns.len() && vault_name(ns[j]) implies
            vault_env_ok(env.vars@, upper_of(ns[j])) by {
            assert(ns[j] == providers_names@[j]@);
        }
    }
    Ok(read)
}

/// The configured secret providers, keyed by their normalized
/// (lower-cased) names; built once during settings load, read-only
/// afterwards.
pub struct SecretsProviders {
    providers: Vec<SecretsProvider>,
}

impl SecretsProviders {
    pub closed spec fn spec_providers(&self) -> Seq<SecretsProvider> {
        self.providers@
    }

    /// No two stored providers share a name.
    pub open spec fn wf(&self) -> bool {
        forall|i: int, j: int| 0 <= i < j < self.spec_providers().len()
            ==> self.spec_providers()[i].spec_name() != self.spec_providers()[j].spec_name()
    }

    pub open spec fn spec_has(&self, name: Seq<char>) -> bool {
        provider_with_name(self.spec_providers(), name)
    }

    pub fn get_providers(&self) -> (r: &Vec<SecretsProvider>)
        ensures
            r@ == self.spec_providers(),
    {
        &self.providers
    }

    /// Looks a provider up by its normalized name.
    pub fn get_provider(&self, key: &str) -> (r: Option<&SecretsProvider>)
        ensures
            match r {
                Some(p) => self.spec_has(key@) && p.spec_name() == key@,
                None => !self.spec_has(key@),
            },
    {
        let n = self.providers.len();
        let mut i: usize = 0;
        while i < n
            invariant
                0 <= i <= n,
                n == self.spec_providers().len(),
                forall|k: int| 0 <= k < i ==> (#[trigger] self.spec_providers()[k]).spec_name()
                    != key@,
            decreases n - i,
        {
            if crate::strings::str_eq(self.providers[i].get_name().as_str(), key) {
                proof {
                    lemma_provider_with_name(self.spec_providers(), key@, i as int);
                }
                return Some(&self.providers[i]);
            }
            i += 1;
        }
        None
    }

    /// Stores a provider under its name, replacing a provider of the
    /// same name.
    fn insert_provider(&mut self, p: SecretsProvider)
        requires
            old(self).wf(),
        ensures
            final(self).wf(),
            final(self).spec_has(p.spec_name()),
            forall|n: Seq<char>| #![trigger provider_with_name(old(self).spec_providers(), n)]
                provider_with_name(old(self).spec_providers(), n) ==> provider_with_name(
                final(self).spec_providers(),
                n,
            ),
            forall|i: int| 0 <= i < final(self).spec_providers().len() ==> (
            #[trigger] final(self).spec_providers()[i]) == p || old(
                self,
            ).spec_providers().contains(final(self).spec_providers()[i]),
    {
        let ghost pre = self.providers@;
        proof {
            assert forall|a: int, b: int| 0 <= a < b < pre.len() implies (
            #[trigger] pre[a]).spec_name() != (#[trigger] pre[b]).spec_name() by {
                assert(old(self).spec_providers()[a].spec_name() != old(
                    self,
                ).spec_providers()[b].spec_name());
            }
        }
        let n = self.providers.len();
        let mut i: usize = 0;
        while i < n
            invariant
                0 <= i <= n,
                n == self.providers@.len(),
                self.providers@ == pre,
                pre == old(self).providers@,
                forall|a: int, b: int| 0 <= a < b < pre.len() ==> (#[trigger] pre[a]).spec_name()
                    != (#[trigger] pre[b]).spec_name(),
                forall|k: int| 0 <= k < i ==> (#[trigger] pre[k]).spec_name() != p.spec_name(),
            decreases n - i,
        {
            if crate::strings::str_eq(
                self.providers[i].get_name().as_str(),
                p.get_name().as_str(),
            ) {
                let _old = self.providers.remove(i);
                self.providers.insert(i, p);
                proof {
                    let now = self.providers@;
                    assert(now =~= pre.update(i as int, p));
                    assert(p.spec_name() == pre[i as int].spec_name());
                    assert forall|a: int, b: int| 0 <= a < b < now.len() implies (
                    #[trigger] now[a]).spec_name() != (#[trigger] now[b]).spec_name() by {
                        assert(now[a] == (if a == i as int {
                            p
                        } else {
                            pre[a]
                        }));
                        assert(now[b] == (if b == i as int {
                            p
                        } else {
                            pre[b]
                        }));
                        assert(now[a].spec_name() == pre[a].spec_name());
                        assert(now[b].spec_name() == pre[b].spec_name());
                        assert(pre[a].spec_name() != pre[b].spec_name());
                    }
                    lemma_provider_with_name(now, p.spec_name(), i as int);
                    assert forall|nm: Seq<char>|
                        #![trigger provider_with_name(pre, nm)]
                        provider_with_name(pre, nm) implies provider_with_name(now, nm) by {
                        let w = choose|w: int| 0 <= w < pre.len() && pre[w].spec_name() == nm;
                        if w == i as int {
                            lemma_provider_with_name(now, nm, i as int);
                        } else {
                            assert(now[w] == pre[w]);
                            lemma_provider_with_name(now, nm, w);
                        }
                    }
                    assert forall|q: int| 0 <= q < now.len() implies (#[trigger] now[q]) == p
                        || pre.contains(now[q]) by {
                        if q != i as int {
                            assert(now[q] == pre[q]);
                            let wq: int = q;
                            assert(0 <= wq < pre.len() && pre[wq] == now[q]);
                        }
                    }
                    assert(old(self).spec_providers() == pre);
                }
                return ;
            }
            i += 1;
        }
        self.providers.push(p);
        proof {
            let now = self.providers@;
            assert(now == pre.push(p));
            assert forall|a: int, b: int| 0 <= a < b < now.len() implies (
            #[trigger] now[a]).spec_name() != (#[trigger] now[b]).spec_name() by {
                if b < pre.len() {
                    assert(now[a] == pre[a] && now[b] == pre[b]);
                    assert(pre[a].spec_name() != pre[b].spec_name());
                } else {
                    assert(now[b] == p);
                    assert(now[a] == pre[a]);
                    assert(pre[a].spec_name() != p.spec_name());
                }
            }
            lemma_provider_with_name(now, p.spec_name(), now.len() - 1);
            assert forall|nm: Seq<char>|
                #![trigger provider_with_name(pre, nm)]
                provider_with_name(pre, nm) implies provider_with_name(now, nm) by {
                let w = choose|w: int| 0 <= w < pre.len() && pre[w].spec_name() == nm;
                assert(now[w] == pre[w]);
                lemma_provider_with_name(now, nm, w);
            }
            assert forall|q: int| 0 <= q < now.len() implies (#[trigger] now[q]) == p
                || pre.contains(now[q]) by {
                if q < pre.len() {
                    assert(now[q] == pre[q]);
                    let wq: int = q;
                    assert(0 <= wq < pre.len() && pre[wq] == now[q]);
                }
            }
            assert(old(self).spec_providers() == pre);
        }
    }

    /// Discovers and constructs every declared provider of a known
    /// kind. A missing provider list is fatal; so is a recognized
    /// provider with malformed variables.
    pub fn new(env: &EnvVars, debug_build: bool) -> (r: Result<
        SecretsProviders,
        ProviderDiscoveryError,
    >)
        ensures
            r is Err <==> discovery_fails(env.vars@),
            match r {
                Ok(sp) => {
                    &&& sp.wf()
                    &&& spec_provider_names(env.vars@) matches Some(ns) && all_vault_envs_ok(
                        env.vars@,
                        ns,
                    ) && (forall|j: int| #![trigger ns[j]] 0 <= j < ns.len() && vault_name(ns[j])
                        ==> sp.spec_has(lower_of(upper_of(ns[j])))) && (forall|i: int|
                        0 <= i < sp.spec_providers().len() ==> vault_provider_shape(
                            #[trigger] sp.spec_providers()[i],
                        ) && from_declared(ns, sp.spec_providers()[i]))
                },
                Err(e) => discovery_error_ok(env.vars@, e),
            },
{
        let secrets_providers_names = load_secrets_providers_names(env)?;
        let ghost ns = spec_provider_names(env.vars@)->Some_0;
        proof {
            assert(ns =~= secrets_providers_names@.map_values(|s: String| s@));
        }
        let found_secrets_providers = match load_secrets_providers(
            env,
            &secrets_providers_names,
            debug_build,
        ) {
            Ok(f) => f,
            Err(e) => {
                proof {
                    assert(!all_vault_envs_ok(env.vars@, ns));
                    if e is ProviderEnvInvalid {
                        let nm = e->ProviderEnvInvalid_0;
                        let j = choose|j: int|
                            0 <= j < secrets_providers_names@.len() && vault_name(
                                #[trigger] secrets_providers_names@[j]@,
                            ) && nm@ == upper_of(secrets_providers_names@[j]@) && !vault_env_ok(
                                env.vars@,
                                upper_of(secrets_providers_names@[j]@),
                            );
                        assert(ns[j] == secrets_providers_names@[j]@);
                        assert(0 <= j < ns.len() && vault_name(ns[j]) && nm@ == upper_of(ns[j])
                            && !vault_env_ok(env.vars@, upper_of(ns[j])));
                    }
                }
                return Err(e);
            },
        };
        let mut created = SecretsProviders { providers: Vec::new() };
        let m = found_secrets_providers.len();
        let ghost found = found_secrets_providers@;
        let mut i: usize = 0;
        let mut rest = found_secrets_providers;
        proof {
            assert(rest@ =~= found.skip(0));
        }
        while rest.len() > 0
            invariant
                0 <= i <= found.len(),
                found.len() == m,
                rest@ == found.skip(i as int),
                rest@.len() == found.len() - i,
                created.wf(),
                forall|k: int| 0 <= k < i ==> created.spec_has(
                    (#[trigger] found[k]).spec_name(),
                ),
                forall|q: int| 0 <= q < created.spec_providers().len() ==> found.contains(
                    #[trigger] created.spec_providers()[q],
                ),
            decreases rest@.len(),
        {
            let ghost pre_rest = rest@;
            let p = rest.remove(0);
            proof {
                assert(p == found.skip(i as int)[0]);
                assert(found.skip(i as int)[0] == found[i as int]);
                assert(rest@ == pre_rest.remove(0));
                assert(pre_rest.remove(0) =~= found.skip(i as int + 1));
                let w: int = i as int;
                assert(0 <= w < found.len() && found[w] == p);
                assert(found.contains(p));
            }
            let ghost pre_created = created;
            created.insert_provider(p);
            proof {
                assert forall|q: int| 0 <= q < created.spec_providers().len() implies
                    found.contains(#[trigger] created.spec_providers()[q]) by {
                    if created.spec_providers()[q] == p {
                    } else {
                        assert(pre_created.spec_providers().contains(
                            created.spec_providers()[q],
                        ));
                        let w = choose|w: int|
                            0 <= w < pre_created.spec_providers().len()
                                && pre_created.spec_providers()[w] == created.spec_providers()[q];
                        assert(found.contains(pre_created.spec_providers()[w]));
                    }
                }
            }
            i += 1;
        }
        proof {
            assert forall|j: int| #![trigger ns[j]] 0 <= j < ns.len() && vault_name(ns[j]) implies
                created.spec_has(lower_of(upper_of(ns[j]))) by {
                assert(ns[j] == secrets_providers_names@[j]@);
                let w = choose|w: int|
                    0 <= w < found.len() && (#[trigger] found[w]).spec_name() == lower_of(
                        upper_of(ns[j]),
                    );
                assert(created.spec_has(found[w].spec_name()));
            }
            assert forall|q: int| 0 <= q < created.spec_providers().len() implies
                vault_provider_shape(#[trigger] created.spec_providers()[q]) && from_declared(
                ns,
                created.spec_providers()[q],
            ) by {
                assert(found.contains(created.spec_providers()[q]));
                let w = choose|w: int|
                    0 <= w < found.len() && found[w] == created.spec_providers()[q];
                assert(vault_provider_shape(found[w]));
                assert(from_declared(secrets_providers_names@.map_values(|s: String| s@), found[w]));
                assert(secrets_providers_names@.map_values(|s: String| s@) == ns);
            }
        }
        Ok(created)
    }
}

} // verus!
