use celestus::cache::Cache;
use celestus::consts::Consts;
use celestus::database::generate_database_url;
use celestus::environment::{
    get_env_var, get_host_mode, get_host_type, init_dev_environment, init_environment,
    init_prod_environment, is_dev_mode, is_local_host, is_prod_mode, parse_environment,
    Environment, EnvVars, HostMode, HostType,
};
use celestus::errors::{ConfigError, DatabaseError, ProviderDiscoveryError, SeedDatabaseError};
use celestus::providers::secrets::SecretsProviderImplementation;
use celestus::providers::{DataProvision, DataProviderConnectivity, DataProviderName};
use celestus::settings::SettingsCache;
use celestus::web::{URLData, URLInfo};

fn env_of(pairs: &[(&str, &str)]) -> EnvVars {
    let mut env = EnvVars::new();
    for (k, v) in pairs {
        env.push((*k).to_owned(), (*v).to_owned());
    }
    env
}

fn vault_env(extra: &[(&str, &str)]) -> EnvVars {
    let mut pairs: Vec<(&str, &str)> = vec![
        ("USE_SECRETS_PROVIDER", "true"),
        ("SECRETS_PROVIDERS", "vault"),
        ("VAULT_HOST", "localhost"),
        ("VAULT_PORT", "8200"),
        ("VAULT_URL", "http://localhost:8200"),
        ("VAULT_ENGINE", "kv2"),
        ("VAULT_LOGIN_ID", "SECRET-REDACTED"),
        ("VAULT_LOGIN_PASS", "SECRET-REDACTED"),
    ];
    pairs.extend_from_slice(extra);
    env_of(&pairs)
}

#[test]
fn settings_defaults_without_providers() {
    let env = env_of(&[]);
    let mut sc = SettingsCache::new(&env, true).unwrap();
    assert_eq!(sc.get_bool("use_secrets_provider"), Some(false));
    assert_eq!(sc.get_int("some_int"), Some(123));
    assert_eq!(sc.get_string("host_mode").as_deref(), Some("Development"));
    assert_eq!(sc.get_bool("missing"), None);
    assert_eq!(sc.get_int("missing"), None);
    assert!(sc.get_string("missing").is_none());
    assert!(sc.get_all_secrets_providers().is_none());
}

#[test]
fn settings_read_resolved_values() {
    let env = env_of(&[("some_int", "-77"), ("USE_SECRETS_PROVIDER", "false")]);
    let mut sc = SettingsCache::new(&env, false).unwrap();
    assert_eq!(sc.get_bool("use_secrets_provider"), Some(false));
    assert_eq!(sc.get_int("some_int"), Some(-77));
    assert_eq!(sc.get_string("host_mode").as_deref(), Some("Production"));
}

#[test]
fn settings_unparsable_scalar_falls_back_to_default() {
    let env = env_of(&[("some_int", "not-a-number"), ("USE_SECRETS_PROVIDER", "maybe")]);
    let mut sc = SettingsCache::new(&env, true).unwrap();
    assert_eq!(sc.get_int("some_int"), Some(123));
    assert_eq!(sc.get_bool("use_secrets_provider"), Some(false));
}

#[test]
fn settings_setters_return_previous_value() {
    let env = env_of(&[]);
    let mut sc = SettingsCache::new(&env, true).unwrap();
    assert_eq!(sc.set_bool("use_secrets_provider", true), Some(false));
    assert_eq!(sc.get_bool("use_secrets_provider"), Some(true));
    assert_eq!(sc.set_int("some_int", 9), Some(123));
    assert_eq!(sc.get_int("some_int"), Some(9));
    assert_eq!(sc.set_bool("fresh", true), None);
    assert_eq!(sc.get_bool("fresh"), Some(true));
}

#[test]
fn provider_discovery_builds_vault_provider() {
    let env = vault_env(&[]);
    let sc = SettingsCache::new(&env, true).unwrap();
    let sp = sc.get_all_secrets_providers().expect("providers loaded");
    assert_eq!(sp.get_providers().len(), 1);
    let p = sc.get_secrets_provider("vault").expect("vault present");
    assert_eq!(p.get_name(), "vault");
    assert_eq!(p.get_prefix(), "vault_");
    assert_eq!(*p.get_provision_type(), DataProvision::OneTime);
    assert_eq!(*p.get_connectivity(), DataProviderConnectivity::SingleConnection);
    match p.get_implementation().expect("implementation present") {
        SecretsProviderImplementation::Vault(v) => {
            assert_eq!(v.get_base_path(), "dev/celestus/");
        },
    }
    assert!(sc.get_secrets_provider("other").is_none());
    let fetch = sc.fetch_from_secrets_providers();
    assert_eq!(fetch, vec!["vault".to_owned()]);
    assert_eq!(sc.fetch_from_data_providers(), vec!["vault".to_owned()]);
}

#[test]
fn provider_discovery_release_base_path() {
    let env = vault_env(&[("VAULT_SINGLE_USE", "false")]);
    let sc = SettingsCache::new(&env, false).unwrap();
    let p = sc.get_secrets_provider("vault").expect("vault present");
    match p.get_implementation().expect("implementation present") {
        SecretsProviderImplementation::Vault(v) => {
            assert_eq!(v.get_base_path(), "celestus/");
        },
    }
}

#[test]
fn provider_list_missing_is_fatal() {
    let env = env_of(&[("USE_SECRETS_PROVIDER", "true")]);
    let r = Cache::new(&env, true);
    match r {
        Err(ProviderDiscoveryError::ProvidersListMissing) => {},
        _ => panic!("expected a missing-provider-list failure"),
    }
}

#[test]
fn provider_env_invalid_is_fatal() {
    let mut env = EnvVars::new();
    env.push("USE_SECRETS_PROVIDER".to_owned(), "true".to_owned());
    env.push("SECRETS_PROVIDERS".to_owned(), "vault".to_owned());
    // VAULT_HOST and the rest are missing.
    let r = SettingsCache::new(&env, true);
    match r {
        Err(ProviderDiscoveryError::ProviderEnvInvalid(name)) => {
            assert_eq!(name, "VAULT");
        },
        _ => panic!("expected a malformed-provider failure"),
    }
}

#[test]
fn unknown_provider_kind_is_skipped() {
    let env = env_of(&[
        ("USE_SECRETS_PROVIDER", "true"),
        ("SECRETS_PROVIDERS", "mystery"),
    ]);
    let sc = SettingsCache::new(&env, true).unwrap();
    let sp = sc.get_all_secrets_providers().expect("collection present");
    assert_eq!(sp.get_providers().len(), 0);
}

#[test]
fn cache_wraps_settings() {
    let env = env_of(&[]);
    let mut cache = Cache::new(&env, true).unwrap();
    assert_eq!(cache.settings.get_bool("use_secrets_provider"), Some(false));
}

#[test]
fn env_resolver_defaults_and_failures() {
    let env = env_of(&[("SET", "true"), ("NUM", "41")]);
    assert_eq!(get_env_var::<bool>(&env, "SET", None).unwrap(), true);
    assert_eq!(get_env_var::<i32>(&env, "NUM", None).unwrap(), 41);
    assert_eq!(get_env_var::<bool>(&env, "MISSING", Some(true)).unwrap(), true);
    assert_eq!(get_env_var::<i32>(&env, "SET", Some(7)).unwrap(), 7);
    match get_env_var::<i32>(&env, "MISSING", None) {
        Err(ConfigError::NotDefined(name)) => assert_eq!(name, "MISSING"),
        _ => panic!("expected a not-defined failure"),
    }
    match get_env_var::<i32>(&env, "SET", None) {
        Err(ConfigError::NotParsable(name)) => assert_eq!(name, "SET"),
        _ => panic!("expected a not-parsable failure"),
    }
}

#[test]
fn scenario_d_missing_database_host() {
    let env = env_of(&[
        ("DATABASE_URL_PREFIX", "postgres"),
        ("DATABASE_USER", "u"),
        ("DATABASE_PASSWORD", "SECRET-REDACTED"),
        ("DATABASE_PORT", "5432"),
        ("DATABASE_NAME", "celestus"),
    ]);
    match generate_database_url(&env) {
        Err(ConfigError::NotDefined(name)) => assert_eq!(name, "DATABASE_HOST"),
        _ => panic!("expected startup to abort on the missing host"),
    }
}

#[test]
fn database_url_assembly() {
    let env = env_of(&[
        ("DATABASE_URL_PREFIX", "postgres"),
        ("DATABASE_USER", "u"),
        ("DATABASE_PASSWORD", "pw"),
        ("DATABASE_HOST", "db"),
        ("DATABASE_PORT", "5432"),
        ("DATABASE_NAME", "celestus"),
    ]);
    let url = generate_database_url(&env).unwrap();
    assert_eq!(url, "postgres://u:pw@db:5432/celestus");
}

#[test]
fn host_and_mode_helpers() {
    assert!(is_dev_mode(true));
    assert!(!is_dev_mode(false));
    assert!(is_prod_mode(false));
    assert_eq!(get_host_mode(true), HostMode::Development);
    assert_eq!(get_host_mode(false), HostMode::Production);
    assert_eq!(get_host_mode(false).as_str(), "Production");
    assert!(is_local_host(false));
    assert!(!is_local_host(true));
    assert_eq!(get_host_type(true), HostType::Container);
    assert_eq!(get_host_type(false), HostType::Local);
    assert!(init_environment(true, true));
    assert!(!init_environment(true, false));
    assert!(!init_environment(false, true));
    assert!(init_dev_environment(true));
    assert!(!init_prod_environment());
}

#[test]
fn environment_values_parse() {
    assert_eq!(parse_environment("dev"), Some(Environment::Development));
    assert_eq!(parse_environment("DEVELOPMENT"), Some(Environment::Development));
    assert_eq!(parse_environment("Prod"), Some(Environment::Production));
    assert_eq!(parse_environment("production"), Some(Environment::Production));
    assert_eq!(parse_environment("staging"), None);
    assert_eq!(Environment::Development.as_str(), "Development");
}

#[test]
fn consts_seed_table() {
    let c = Consts::new(Environment::Production);
    assert_eq!(c.environment, Environment::Production);
    assert_eq!(c.seed_consts.len(), 2);
    assert_eq!(c.seed_consts[0].name, "system_configs");
    assert_eq!(c.seed_consts[0].minimum_required, 1);
    assert_eq!(c.seed_consts[0].file_path, "./data/seed/system_configs.json");
    assert_eq!(c.seed_consts[1].name, "role_groups");
    assert_eq!(c.seed_consts[1].minimum_required, 4);
    assert_eq!(c.seed_consts[1].file_path, "./data/seed/role_groups.json");
    let d = Consts::new(Environment::Development);
    assert_eq!(
        d.seed_consts[1].file_path,
        "./src/lib/database/models/role_group/data/seed.json"
    );
}

#[test]
fn error_messages_name_their_cause() {
    assert!(DatabaseError::DataCorruptionAttempt.message().contains("corruption"));
    assert!(SeedDatabaseError::SeedRecoveryFailed.message().contains("recover"));
    assert!(ConfigError::NotDefined("X".to_owned()).message().contains("X"));
    assert!(ProviderDiscoveryError::ProviderEnvInvalid("V".to_owned()).message().contains("V"));
    assert!(ProviderDiscoveryError::ProvidersListMissing.message().contains("list"));
}

#[test]
fn url_data_and_provider_name() {
    let u = URLData { host: "h".to_owned(), port: 1, url: "http://h:1".to_owned() };
    assert_eq!(u.get_host(), "h");
    assert_eq!(u.get_port(), 1);
    assert_eq!(u.get_url(), "http://h:1");
    let n = DataProviderName::from_name("vault");
    assert_eq!(n.0, "vault");
}
