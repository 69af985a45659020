//! The settings registry: one bounded-recency cache per setting kind
//! (boolean, integer, string) plus an open map for provider-backed
//! values, populated once at startup from the declared settings table
//! and the environment snapshot.

pub mod store;

use vstd::prelude::*;
use crate::environment::{
    env_lookup, get_env_var, get_host_mode, parse_i32_spec, EnvVars, SETTING_HOST_MODE,
};
use crate::errors::ProviderDiscoveryError;
use crate::providers::secrets::{
    discovery_error_ok, discovery_fails, SecretsProvider, SecretsProviders,
    ENV_SECRETS_PROVIDERS, ENV_USE_SECRETS_PROVIDER, SETTING_SECRETS_PROVIDERS,
    SETTING_USE_SECRETS_PROVIDER,
};
use crate::providers::DataProvision;
use crate::settings::store::{
    bool_store_get, bool_store_map, bool_store_new, bool_store_push, int_store_get, int_store_map,
    int_store_new, int_store_push, string_store_get, string_store_map, string_store_new,
    string_store_push, BoolStore, IntStore, StringStore,
};

verus! {

/// A structured, provider-backed settings value.
pub enum HashMapValueTypes {
    SecretsProviders(SecretsProviders),
}

/// One declared setting: its registry key, its environment variable and
/// its optional default.
pub enum SettingsTypes {
    Bool(String, String, Option<bool>),
    Int32(String, String, Option<i32>),
    Text(String, String, Option<String>),
    Hashmap(String, HashMapValueTypes),
}

/// The compiled-in table of declared scalar settings.
pub fn app_settings() -> (r: Vec<SettingsTypes>)
    ensures
        r@.len() == 2,
        r@[0] matches SettingsTypes::Bool(k, v, d) && k@ == "use_secrets_provider"@ && v@
            == "USE_SECRETS_PROVIDER"@ && d == Some(false),
        r@[1] matches SettingsTypes::Int32(k, v, d) && k@ == "some_int"@ && v@ == "some_int"@ && d
            == Some(123i32),
{
    let mut r: Vec<SettingsTypes> = Vec::new();
    r.push(
        SettingsTypes::Bool(
            SETTING_USE_SECRETS_PROVIDER.to_owned(),
            ENV_USE_SECRETS_PROVIDER.to_owned(),
            Some(false),
        ),
    );
    r.push(SettingsTypes::Int32("some_int".to_owned(), "some_int".to_owned(), Some(123)));
    r
}

/// The resolved use-providers flag: set and `true`, everything else
/// (unset, `false`, unreadable) degrades to the default `false`.
pub open spec fn spec_use_secrets_provider(env: Seq<(String, String)>) -> bool {
    match env_lookup(env, "USE_SECRETS_PROVIDER"@) {
        Some(raw) => raw == "true"@,
        None => false,
    }
}

/// The resolved sample integer setting, defaulting to 123.
pub open spec fn spec_some_int(env: Seq<(String, String)>) -> i32 {
    match env_lookup(env, "some_int"@) {
        Some(raw) => match parse_i32_spec(raw) {
            Some(v) => v,
            None => 123,
        },
        None => 123,
    }
}

/// Index of the first structured entry with this key, or -1.
pub open spec fn hm_key_index(es: Seq<(String, HashMapValueTypes)>, key: Seq<char>) -> int
    decreases es.len(),
{
    if es.len() == 0 {
        -1
    } else if es[0].0@ == key {
        0
    } else {
        let r = hm_key_index(es.drop_first(), key);
        if r == -1 {
            -1
        } else {
            r + 1
        }
    }
}

proof fn lemma_hm_key_index_bounds(es: Seq<(String, HashMapValueTypes)>, key: Seq<char>)
    ensures
        hm_key_index(es, key) == -1 || (0 <= hm_key_index(es, key) < es.len() && es[hm_key_index(
            es,
            key,
        )].0@ == key),
    decreases es.len(),
{
    if es.len() != 0 && es[0].0@ != key {
        lemma_hm_key_index_bounds(es.drop_first(), key);
    }
}

proof fn lemma_hm_key_index_skip(es: Seq<(String, HashMapValueTypes)>, key: Seq<char>, i: int)
    requires
        0 <= i <= es.len(),
        forall|k: int| 0 <= k < i ==> es[k].0@ != key,
    ensures
        hm_key_index(es, key) == (if hm_key_index(es.skip(i), key) == -1 {
            -1int
        } else {
            hm_key_index(es.skip(i), key) + i
        }),
    decreases i,
{
    if i > 0 {
        assert(es[0].0@ != key);
        assert(es.drop_first() =~= es.skip(1));
        assert forall|k: int| 0 <= k < i - 1 implies es.skip(1)[k].0@ != key by {
            assert(es.skip(1)[k] == es[k + 1]);
        }
        lemma_hm_key_index_skip(es.skip(1), key, i - 1);
        assert(es.skip(1).skip(i - 1) =~= es.skip(i));
        lemma_hm_key_index_bounds(es.skip(i), key);
    } else {
        assert(es.skip(0) =~= es);
    }
}

/// The settings registry: one cache per scalar kind and the structured
/// map for provider-backed values.
pub struct SettingsCache {
    bools: BoolStore,
    ints: IntStore,
    strings: StringStore,
    hashmaps: Vec<(String, HashMapValueTypes)>,
}

/// What one completed settings load guarantees: the scalar caches hold
/// exactly the declared settings with their resolved values, and the
/// provider collection is present exactly when the use-providers flag
/// resolved to true.
pub open spec fn settings_resolved(
    sc: SettingsCache,
    env: Seq<(String, String)>,
    debug_build: bool,
) -> bool {
    &&& sc.spec_bools() == Map::<Seq<char>, bool>::empty().insert(
        "use_secrets_provider"@,
        spec_use_secrets_provider(env),
    )
    &&& sc.spec_ints() == Map::<Seq<char>, i32>::empty().insert("some_int"@, spec_some_int(env))
    &&& sc.spec_strings() == Map::<Seq<char>, Seq<char>>::empty().insert(
        "host_mode"@,
        if debug_build {
            "Development"@
        } else {
            "Production"@
        },
    )
    &&& if spec_use_secrets_provider(env) {
        sc.spec_hashmaps().len() == 1 && sc.spec_hashmaps()[0].0@ == "secrets_providers"@ && (
        sc.spec_hashmaps()[0].1 matches HashMapValueTypes::SecretsProviders(sp) && sp.wf())
    } else {
        sc.spec_hashmaps().len() == 0
    }
}

impl SettingsCache {
    pub closed spec fn spec_bools(&self) -> Map<Seq<char>, bool> {
        bool_store_map(self.bools)
    }

    pub closed spec fn spec_ints(&self) -> Map<Seq<char>, i32> {
        int_store_map(self.ints)
    }

    pub closed spec fn spec_strings(&self) -> Map<Seq<char>, Seq<char>> {
        string_store_map(self.strings)
    }

    pub closed spec fn spec_hashmaps(&self) -> Seq<(String, HashMapValueTypes)> {
        self.hashmaps@
    }

    /// Builds the registry from the environment snapshot: the host mode,
    /// then every declared scalar setting, then the structured
    /// provider-backed settings. Fails exactly when the use-providers
    /// flag is on but provider discovery fails.
    pub fn new(env: &EnvVars, debug_build: bool) -> (r: Result<
        SettingsCache,
        ProviderDiscoveryError,
    >)
        ensures
            match r {
                Ok(sc) => settings_resolved(sc, env.vars@, debug_build),
                Err(e) => discovery_error_ok(env.vars@, e),
            },
            r is Err <==> spec_use_secrets_provider(env.vars@) && discovery_fails(env.vars@),
    {
        let mut lru_bools = bool_store_new();
        let mut lru_ints = int_store_new();
        let mut lru_strings = string_store_new();
        let host_mode = get_host_mode(debug_build);
        let _had = string_store_push(
            &mut lru_strings,
            SETTING_HOST_MODE,
            host_mode.as_str().to_owned(),
        );
        match load_env_var_settings(env, &mut lru_bools, &mut lru_ints, &mut lru_strings) {
            Ok(()) => (),
            Err(()) => (),
        }
        let mut created = SettingsCache {
            bools: lru_bools,
            ints: lru_ints,
            strings: lru_strings,
            hashmaps: Vec::new(),
        };
        match created.load_structured_settings(env, debug_build) {
            Ok(()) => Ok(created),
            Err(e) => Err(e),
        }
    }

    fn load_structured_settings(&mut self, env: &EnvVars, debug_build: bool) -> (r: Result<
        (),
        ProviderDiscoveryError,
    >)
        requires
            old(self).spec_hashmaps().len() == 0,
        ensures
            final(self).spec_bools() == old(self).spec_bools(),
            final(self).spec_ints() == old(self).spec_ints(),
            final(self).spec_strings() == old(self).spec_strings(),
            r is Err <==> (old(self).spec_bools().dom().contains("use_secrets_provider"@) && old(
                self,
            ).spec_bools()["use_secrets_provider"@] && discovery_fails(env.vars@)),
            r matches Err(e) ==> discovery_error_ok(env.vars@, e),
            r is Ok ==> (if old(self).spec_bools().dom().contains("use_secrets_provider"@) && old(
                self,
            ).spec_bools()["use_secrets_provider"@] {
                final(self).spec_hashmaps().len() == 1 && final(self).spec_hashmaps()[0].0@
                    == "secrets_providers"@ && (final(self).spec_hashmaps()[0].1 matches
                HashMapValueTypes::SecretsProviders(sp) && sp.wf())
            } else {
                final(self).spec_hashmaps().len() == 0
            }),
    {
        self.load_hashmaps(env, debug_build)
    }

    fn load_hashmaps(&mut self, env: &EnvVars, debug_build: bool) -> (r: Result<
        (),
        ProviderDiscoveryError,
    >)
        requires
            old(self).spec_hashmaps().len() == 0,
        ensures
            final(self).spec_bools() == old(self).spec_bools(),
            final(self).spec_ints() == old(self).spec_ints(),
            final(self).spec_strings() == old(self).spec_strings(),
            r is Err <==> (old(self).spec_bools().dom().contains("use_secrets_provider"@) && old(
                self,
            ).spec_bools()["use_secrets_provider"@] && discovery_fails(env.vars@)),
            r matches Err(e) ==> discovery_error_ok(env.vars@, e),
            r is Ok ==> (if old(self).spec_bools().dom().contains("use_secrets_provider"@) && old(
                self,
            ).spec_bools()["use_secrets_provider"@] {
                final(self).spec_hashmaps().len() == 1 && final(self).spec_hashmaps()[0].0@
                    == "secrets_providers"@ && (final(self).spec_hashmaps()[0].1 matches
                HashMapValueTypes::SecretsProviders(sp) && sp.wf())
            } else {
                final(self).spec_hashmaps().len() == 0
            }),
    {
        self.load_data_providers(env, debug_build)
    }

    fn load_data_providers(&mut self, env: &EnvVars, debug_build: bool) -> (r: Result<
        (),
        ProviderDiscoveryError,
    >)
        requires
            old(self).spec_hashmaps().len() == 0,
        ensures
            final(self).spec_bools() == old(self).spec_bools(),
            final(self).spec_ints() == old(self).spec_ints(),
            final(self).spec_strings() == old(self).spec_strings(),
            r is Err <==> (old(self).spec_bools().dom().contains("use_secrets_provider"@) && old(
                self,
            ).spec_bools()["use_secrets_provider"@] && discovery_fails(env.vars@)),
            r matches Err(e) ==> discovery_error_ok(env.vars@, e),
            r is Ok ==> (if old(self).spec_bools().dom().contains("use_secrets_provider"@) && old(
                self,
            ).spec_bools()["use_secrets_provider"@] {
                final(self).spec_hashmaps().len() == 1 && final(self).spec_hashmaps()[0].0@
                    == "secrets_providers"@ && (final(self).spec_hashmaps()[0].1 matches
                HashMapValueTypes::SecretsProviders(sp) && sp.wf())
            } else {
                final(self).spec_hashmaps().len() == 0
            }),
    {
        self.load_secrets_providers(env, debug_build)
    }

    fn load_secrets_providers(&mut self, env: &EnvVars, debug_build: bool) -> (r: Result<
        (),
        ProviderDiscoveryError,
    >)
        requires
            old(self).spec_hashmaps().len() == 0,
        ensures
            final(self).spec_bools() == old(self).spec_bools(),
            final(self).spec_ints() == old(self).spec_ints(),
            final(self).spec_strings() == old(self).spec_strings(),
            r is Err <==> (old(self).spec_bools().dom().contains("use_secrets_provider"@) && old(
                self,
            ).spec_bools()["use_secrets_provider"@] && discovery_fails(env.vars@)),
            r matches Err(e) ==> discovery_error_ok(env.vars@, e),
            r is Ok ==> (if old(self).spec_bools().dom().contains("use_secrets_provider"@) && old(
                self,
            ).spec_bools()["use_secrets_provider"@] {
                final(self).spec_hashmaps().len() == 1 && final(self).spec_hashmaps()[0].0@
                    == "secrets_providers"@ && (final(self).spec_hashmaps()[0].1 matches
                HashMapValueTypes::SecretsProviders(sp) && sp.wf())
            } else {
                final(self).spec_hashmaps().len() == 0
            }),
    {
        let use_providers = bool_store_get(&mut self.bools, SETTING_USE_SECRETS_PROVIDER);
        match use_providers {
            Some(flag) => {
                if flag {
                    let sp = match SecretsProviders::new(env, debug_build) {
                        Ok(sp) => sp,
                        Err(e) => {
                            return Err(e);
                        },
                    };
                    self.hashmaps.push(
                        (
                            SETTING_SECRETS_PROVIDERS.to_owned(),
                            HashMapValueTypes::SecretsProviders(sp),
                        ),
                    );
                }
                Ok(())
            },
            None => Ok(()),
        }
    }

    /// Reads a boolean setting.
    pub fn get_bool(&mut self, key: &str) -> (r: Option<bool>)
        ensures
            final(self).spec_bools() == old(self).spec_bools(),
            final(self).spec_ints() == old(self).spec_ints(),
            final(self).spec_strings() == old(self).spec_strings(),
            final(self).spec_hashmaps() == old(self).spec_hashmaps(),
            r == (if old(self).spec_bools().dom().contains(key@) {
                Some(old(self).spec_bools()[key@])
            } else {
                None::<bool>
            }),
    {
        bool_store_get(&mut self.bools, key)
    }

    /// Reads an integer setting.
    pub fn get_int(&mut self, key: &str) -> (r: Option<i32>)
        ensures
            final(self).spec_bools() == old(self).spec_bools(),
            final(self).spec_ints() == old(self).spec_ints(),
            final(self).spec_strings() == old(self).spec_strings(),
            final(self).spec_hashmaps() == old(self).spec_hashmaps(),
            r == (if old(self).spec_ints().dom().contains(key@) {
                Some(old(self).spec_ints()[key@])
            } else {
                None::<i32>
            }),
    {
        int_store_get(&mut self.ints, key)
    }

    /// Reads a string setting.
    pub fn get_string(&mut self, key: &str) -> (r: Option<String>)
        ensures
            final(self).spec_bools() == old(self).spec_bools(),
            final(self).spec_ints() == old(self).spec_ints(),
            final(self).spec_strings() == old(self).spec_strings(),
            final(self).spec_hashmaps() == old(self).spec_hashmaps(),
            match r {
                Some(v) => old(self).spec_strings().dom().contains(key@) && v@ == old(
                    self,
                ).spec_strings()[key@],
                None => !old(self).spec_strings().dom().contains(key@),
            },
    {
        string_store_get(&mut self.strings, key)
    }

    /// Overwrites a boolean setting, returning its previous value.
    pub fn set_bool(&mut self, key: &str, value: bool) -> (r: Option<bool>)
        ensures
            final(self).spec_bools() == old(self).spec_bools().insert(key@, value),
            final(self).spec_ints() == old(self).spec_ints(),
            final(self).spec_strings() == old(self).spec_strings(),
            final(self).spec_hashmaps() == old(self).spec_hashmaps(),
            r == (if old(self).spec_bools().dom().contains(key@) {
                Some(old(self).spec_bools()[key@])
            } else {
                None::<bool>
            }),
    {
        bool_store_push(&mut self.bools, key, value)
    }

    /// Overwrites an integer setting, returning its previous value.
    pub fn set_int(&mut self, key: &str, value: i32) -> (r: Option<i32>)
        ensures
            final(self).spec_bools() == old(self).spec_bools(),
            final(self).spec_ints() == old(self).spec_ints().insert(key@, value),
            final(self).spec_strings() == old(self).spec_strings(),
            final(self).spec_hashmaps() == old(self).spec_hashmaps(),
            r == (if old(self).spec_ints().dom().contains(key@) {
                Some(old(self).spec_ints()[key@])
            } else {
                None::<i32>
            }),
    {
        int_store_push(&mut self.ints, key, value)
    }

    /// Reads a structured setting.
    pub fn get_hashmap(&self, key: &str) -> (r: Option<&HashMapValueTypes>)
        ensures
            match r {
                Some(v) => hm_key_index(self.spec_hashmaps(), key@) >= 0 && *v
                    == self.spec_hashmaps()[hm_key_index(self.spec_hashmaps(), key@)].1,
                None => hm_key_index(self.spec_hashmaps(), key@) == -1,
            },
    {
        let n = self.hashmaps.len();
        let mut i: usize = 0;
        while i < n
            invariant
                0 <= i <= n,
                n == self.hashmaps@.len(),
                forall|k: int| 0 <= k < i ==> self.hashmaps@[k].0@ != key@,
            decreases n - i,
        {
            if crate::strings::str_eq(self.hashmaps[i].0.as_str(), key) {
                proof {
                    lemma_hm_key_index_skip(self.hashmaps@, key@, i as int);
                    assert(self.hashmaps@.skip(i as int)[0] == self.hashmaps@[i as int]);
                    assert(hm_key_index(self.hashmaps@.skip(i as int), key@) == 0);
                }
                return Some(&self.hashmaps[i].1);
            }
            i += 1;
        }
        proof {
            lemma_hm_key_index_skip(self.hashmaps@, key@, n as int);
        }
        None
    }

    /// The provider collection, when one was loaded.
    pub fn get_all_secrets_providers(&self) -> (r: Option<&SecretsProviders>)
        ensures
            match r {
                Some(sp) => hm_key_index(self.spec_hashmaps(), "secrets_providers"@) >= 0
                    && self.spec_hashmaps()[hm_key_index(
                    self.spec_hashmaps(),
                    "secrets_providers"@,
                )].1 == HashMapValueTypes::SecretsProviders(*sp),
                None => hm_key_index(self.spec_hashmaps(), "secrets_providers"@) == -1,
            },
    {
        let entry = self.get_hashmap(SETTING_SECRETS_PROVIDERS);
        match entry {
            Some(available) => match available {
                HashMapValueTypes::SecretsProviders(sp) => Some(sp),
            },
            None => None,
        }
    }

    /// Looks one secret provider up by its normalized name. The provider
    /// collection must have been loaded.
    pub fn get_secrets_provider(&self, key: &str) -> (r: Option<&SecretsProvider>)
        requires
            hm_key_index(self.spec_hashmaps(), "secrets_providers"@) >= 0,
        ensures
            ({
                let entry = self.spec_hashmaps()[hm_key_index(
                    self.spec_hashmaps(),
                    "secrets_providers"@,
                )].1;
                entry matches HashMapValueTypes::SecretsProviders(sp) && (match r {
                    Some(p) => sp.spec_has(key@) && p.spec_name() == key@,
                    None => !sp.spec_has(key@),
                })
            }),
    {
        let all = self.get_all_secrets_providers();
        match all {
            Some(sp) => sp.get_provider(key),
            None => {
                assert(false);
                None
            },
        }
    }

    /// The names of the providers whose data must be fetched now: those
    /// provisioned once at startup. The caller performs the fetches.
    pub fn fetch_from_data_providers(&self) -> (r: Vec<String>)
        ensures
            fetch_list_ok(*self, r@),
    {
        self.fetch_from_secrets_providers()
    }

    /// The names of the one-time-provisioned secret providers.
    pub fn fetch_from_secrets_providers(&self) -> (r: Vec<String>)
        ensures
            fetch_list_ok(*self, r@),
    {
        let mut out: Vec<String> = Vec::new();
        let all = self.get_all_secrets_providers();
        match all {
            Some(sp) => {
                let providers = sp.get_providers();
                let n = providers.len();
                let mut i: usize = 0;
                while i < n
                    invariant
                        0 <= i <= n,
                        n == providers@.len(),
                        providers@ == sp.spec_providers(),
                        forall|k: int| 0 <= k < out@.len() ==> name_of_one_time(
                            sp.spec_providers(),
                            (#[trigger] out@[k])@,
                        ),
                        forall|w: int| #![trigger providers@[w]] 0 <= w < i && providers@[w].spec_provision_type() is OneTime
                            ==> string_list_has(out@, providers@[w].spec_name()),
                    decreases n - i,
                {
                    let ghost pre = out@;
                    let is_one_time = match providers[i].get_provision_type() {
                        DataProvision::OneTime => true,
                        DataProvision::OnDemand => false,
                    };
                    if is_one_time {
                        out.push(providers[i].get_name().clone());
                        proof {
                            lemma_name_of_one_time(
                                sp.spec_providers(),
                                providers@[i as int].spec_name(),
                                i as int,
                            );
                            lemma_string_list_has(
                                out@,
                                providers@[i as int].spec_name(),
                                out@.len() - 1,
                            );
                            assert forall|w: int| #![trigger providers@[w]]
                                0 <= w < i + 1 && providers@[w].spec_provision_type() is OneTime implies string_list_has(
                                out@,
                                providers@[w].spec_name(),
                            ) by {
                                if w < i {
                                    let q = choose|q: int|
                                        0 <= q < pre.len() && pre[q]@ == providers@[w].spec_name();
                                    lemma_string_list_has(out@, providers@[w].spec_name(), q);
                                }
                            }
                        }
                    }
                    i += 1;
                }
                out
            },
            None => out,
        }
    }
}

/// Some string in the list reads as this name.
pub open spec fn string_list_has(l: Seq<String>, name: Seq<char>) -> bool {
    exists|i: int| 0 <= i < l.len() && l[i]@ == name
}

pub proof fn lemma_string_list_has(l: Seq<String>, name: Seq<char>, w: int)
    requires
        0 <= w < l.len(),
        l[w]@ == name,
    ensures
        string_list_has(l, name),
{
    assert(0 <= w < l.len() && l[w]@ == name);
}

/// Some provider in the list is one-time-provisioned under this name.
pub open spec fn name_of_one_time(ps: Seq<SecretsProvider>, n: Seq<char>) -> bool {
    exists|w: int|
        0 <= w < ps.len() && (#[trigger] ps[w]).spec_name() == n
            && ps[w].spec_provision_type() is OneTime
}

pub proof fn lemma_name_of_one_time(ps: Seq<SecretsProvider>, n: Seq<char>, w: int)
    requires
        0 <= w < ps.len(),
        ps[w].spec_name() == n,
        ps[w].spec_provision_type() is OneTime,
    ensures
        name_of_one_time(ps, n),
{
    assert(0 <= w < ps.len() && ps[w].spec_name() == n
        && ps[w].spec_provision_type() is OneTime);
}

/// Whether a fetch list is sound and complete for the registry's
/// provider collection: every listed name is a one-time provider's, and
/// every one-time provider is listed. Without a collection the list is
/// empty.
pub open spec fn fetch_list_ok(sc: SettingsCache, l: Seq<String>) -> bool {
    if hm_key_index(sc.spec_hashmaps(), "secrets_providers"@) >= 0 {
        sc.spec_hashmaps()[hm_key_index(sc.spec_hashmaps(), "secrets_providers"@)].1 matches
            HashMapValueTypes::SecretsProviders(sp) && (forall|k: int|
            0 <= k < l.len() ==> name_of_one_time(sp.spec_providers(), (#[trigger] l[k])@))
            && (forall|w: int| #![trigger sp.spec_providers()[w]]
            0 <= w < sp.spec_providers().len()
                && sp.spec_providers()[w].spec_provision_type() is OneTime ==> string_list_has(
                l,
                sp.spec_providers()[w].spec_name(),
            ))
    } else {
        l.len() == 0
    }
}

/// Resolves every declared scalar setting into its kind's cache; a
/// resolver failure for one setting falls back to its default and does
/// not abort the remaining settings (every declared setting has a
/// default).
fn load_env_var_settings(
    env: &EnvVars,
    bools: &mut BoolStore,
    ints: &mut IntStore,
    strings: &mut StringStore,
) -> (r: Result<(), ()>)
    ensures
        r is Ok,
        bool_store_map(*final(bools)) == bool_store_map(*old(bools)).insert(
            "use_secrets_provider"@,
            spec_use_secrets_provider(env.vars@),
        ),
        int_store_map(*final(ints)) == int_store_map(*old(ints)).insert(
            "some_int"@,
            spec_some_int(env.vars@),
        ),
        string_store_map(*final(strings)) == string_store_map(*old(strings)),
{
    let use_providers = match get_env_var::<bool>(env, ENV_USE_SECRETS_PROVIDER, Some(false)) {
        Ok(v) => v,
        Err(_) => false,
    };
    proof {
        reveal_strlit("true");
        reveal_strlit("false");
        assert("true"@.len() == 4 && "false"@.len() == 5);
    }
    let _old_bool = bool_store_push(bools, SETTING_USE_SECRETS_PROVIDER, use_providers);
    let some_int = match get_env_var::<i32>(env, "some_int", Some(123)) {
        Ok(v) => v,
        Err(_) => 123,
    };
    let _old_int = int_store_push(ints, "some_int", some_int);
    Ok(())
}

} // verus!
