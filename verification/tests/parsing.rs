use celestus::environment::parse_i32;
use celestus::json::{insert_obj_prop, upsert_obj_prop, update_obj_prop, JsonValue};
use celestus::providers::vault::VaultEnvData;
use celestus::providers::{DataProvision, DataProvisionActions};
use celestus::records::{Predefined, SeedRecord};
use celestus::role_group::RoleGroupInput;
use celestus::security::{config_level, is_data_secure};
use celestus::strings::{
    split_commas_exec, str_contains, str_eq, str_lt, vec_to_lowercase, vec_to_uppercase,
};

#[test]
fn parse_i32_accepts_integers() {
    assert_eq!(parse_i32("0"), Some(0));
    assert_eq!(parse_i32("123"), Some(123));
    assert_eq!(parse_i32("-123"), Some(-123));
    assert_eq!(parse_i32("+5"), Some(5));
    assert_eq!(parse_i32("0012"), Some(12));
    assert_eq!(parse_i32("-0"), Some(0));
    assert_eq!(parse_i32("2147483647"), Some(i32::MAX));
    assert_eq!(parse_i32("-2147483648"), Some(i32::MIN));
}

#[test]
fn parse_i32_rejects_everything_else() {
    assert_eq!(parse_i32(""), None);
    assert_eq!(parse_i32("-"), None);
    assert_eq!(parse_i32("+"), None);
    assert_eq!(parse_i32("abc"), None);
    assert_eq!(parse_i32("12a"), None);
    assert_eq!(parse_i32(" 12"), None);
    assert_eq!(parse_i32("1.5"), None);
    assert_eq!(parse_i32("--4"), None);
    assert_eq!(parse_i32("2147483648"), None);
    assert_eq!(parse_i32("-2147483649"), None);
    assert_eq!(parse_i32("99999999999999999999"), None);
    assert_eq!(parse_i32("00000000000000000012"), Some(12));
}

#[test]
fn string_utilities() {
    assert!(str_eq("abc", "abc"));
    assert!(!str_eq("abc", "abd"));
    assert!(!str_eq("abc", "ab"));
    assert!(str_lt("abc", "abd"));
    assert!(str_lt("ab", "abc"));
    assert!(!str_lt("abc", "abc"));
    assert!(!str_lt("b", "abc"));
    assert!(str_contains("MY_VAULT_STORE", "VAULT"));
    assert!(str_contains("VAULT", "VAULT"));
    assert!(!str_contains("VAUL", "VAULT"));
    assert!(!str_contains("my_vault", "VAULT"));
}

#[test]
fn case_mapping() {
    let arr = vec!["Vault".to_owned(), "ALReady".to_owned(), "x9_z".to_owned()];
    let up = vec_to_uppercase(&arr);
    assert_eq!(up, vec!["VAULT".to_owned(), "ALREADY".to_owned(), "X9_Z".to_owned()]);
    let low = vec_to_lowercase(&arr);
    assert_eq!(low, vec!["vault".to_owned(), "already".to_owned(), "x9_z".to_owned()]);
    // The mapping is the full Unicode one, not an ASCII-only map.
    let accents = vec!["École".to_owned(), "straße".to_owned()];
    assert_eq!(
        vec_to_lowercase(&accents),
        vec!["école".to_owned(), "straße".to_owned()]
    );
    assert_eq!(
        vec_to_uppercase(&accents),
        vec!["ÉCOLE".to_owned(), "STRASSE".to_owned()]
    );
}

#[test]
fn comma_splitting() {
    assert_eq!(split_commas_exec("a,b,c"), vec!["a".to_owned(), "b".to_owned(), "c".to_owned()]);
    assert_eq!(split_commas_exec("one"), vec!["one".to_owned()]);
    assert_eq!(split_commas_exec(""), vec!["".to_owned()]);
    assert_eq!(
        split_commas_exec("a,,b"),
        vec!["a".to_owned(), "".to_owned(), "b".to_owned()]
    );
    assert_eq!(split_commas_exec("a,"), vec!["a".to_owned(), "".to_owned()]);
}

#[test]
fn json_insert_only_adds_missing_property() {
    let mut obj = JsonValue::Object(vec![("level".to_owned(), JsonValue::Number(Some(3)))]);
    insert_obj_prop(&mut obj, &"level".to_owned(), JsonValue::Number(Some(9)));
    assert_eq!(obj.get("level"), Some(&JsonValue::Number(Some(3))));
    insert_obj_prop(&mut obj, &"tag".to_owned(), JsonValue::Text("x".to_owned()));
    assert_eq!(obj.get("tag"), Some(&JsonValue::Text("x".to_owned())));
}

#[test]
fn json_update_respects_types() {
    let mut obj = JsonValue::Object(vec![("level".to_owned(), JsonValue::Number(Some(3)))]);
    // Same kind: replaced.
    update_obj_prop(&mut obj, &"level".to_owned(), JsonValue::Number(Some(8)), false);
    assert_eq!(obj.get("level"), Some(&JsonValue::Number(Some(8))));
    // Different kind without override: left alone.
    update_obj_prop(&mut obj, &"level".to_owned(), JsonValue::Text("s".to_owned()), false);
    assert_eq!(obj.get("level"), Some(&JsonValue::Number(Some(8))));
    // Different kind with override: replaced.
    update_obj_prop(&mut obj, &"level".to_owned(), JsonValue::Bool(true), true);
    assert_eq!(obj.get("level"), Some(&JsonValue::Bool(true)));
}

#[test]
fn json_update_with_override_inserts_missing_property() {
    let mut obj = JsonValue::Object(vec![]);
    update_obj_prop(&mut obj, &"level".to_owned(), JsonValue::Number(Some(4)), true);
    assert_eq!(obj.get("level"), Some(&JsonValue::Number(Some(4))));
}

#[test]
fn json_upsert_inserts_or_updates() {
    let mut obj = JsonValue::Object(vec![]);
    upsert_obj_prop(&mut obj, &"level".to_owned(), JsonValue::Number(Some(1)), false);
    assert_eq!(obj.get("level"), Some(&JsonValue::Number(Some(1))));
    upsert_obj_prop(&mut obj, &"level".to_owned(), JsonValue::Number(Some(2)), false);
    assert_eq!(obj.get("level"), Some(&JsonValue::Number(Some(2))));
    assert_eq!(obj.get("other"), None);
    let not_obj = JsonValue::Number(Some(1));
    assert_eq!(not_obj.get("level"), None);
}

#[test]
fn vault_env_data_provision_type() {
    let v = VaultEnvData::new(
        "h".to_owned(),
        1,
        "u".to_owned(),
        "kv2".to_owned(),
        "id".to_owned(),
        "SECRET-REDACTED".to_owned(),
        Some(true),
    );
    assert_eq!(v.get_provision_type(), DataProvision::OneTime);
    let w = VaultEnvData::new(
        "h".to_owned(),
        1,
        "u".to_owned(),
        "kv2".to_owned(),
        "id".to_owned(),
        "SECRET-REDACTED".to_owned(),
        Some(false),
    );
    assert_eq!(w.get_provision_type(), DataProvision::OnDemand);
    let x = VaultEnvData::new(
        "h".to_owned(),
        1,
        "u".to_owned(),
        "kv2".to_owned(),
        "id".to_owned(),
        "SECRET-REDACTED".to_owned(),
        None,
    );
    assert_eq!(x.get_provision_type(), DataProvision::OneTime);
}

/// Serializing the canonical records through the JSON library and
/// reading them back yields a set the validator reports secure.
#[test]
fn seed_round_trip_through_json() {
    let predefined = RoleGroupInput::get_predefined();
    let mut values: Vec<serde_json::Value> = Vec::new();
    for r in predefined.iter() {
        let mut config = serde_json::Map::new();
        config.insert(
            "level".to_owned(),
            serde_json::Value::from(config_level(r).unwrap()),
        );
        let mut obj = serde_json::Map::new();
        obj.insert("name".to_owned(), serde_json::Value::from(r.name.clone()));
        obj.insert("config".to_owned(), serde_json::Value::Object(config));
        values.push(serde_json::Value::Object(obj));
    }
    let text = serde_json::to_string(&serde_json::Value::Array(values)).unwrap();

    let reread: serde_json::Value = serde_json::from_str(&text).unwrap();
    let mut candidates: Vec<SeedRecord> = Vec::new();
    for v in reread.as_array().unwrap() {
        let name = v.get("name").unwrap().as_str().unwrap().to_owned();
        let level = v.get("config").unwrap().get("level").unwrap().as_u64();
        candidates.push(SeedRecord::new(
            name,
            Some(JsonValue::Object(vec![(
                "level".to_owned(),
                JsonValue::Number(level),
            )])),
        ));
    }
    let exceptions = RoleGroupInput::get_exceptions();
    assert!(is_data_secure(&candidates, &exceptions));
    assert_eq!(candidates.len(), 4);
}
