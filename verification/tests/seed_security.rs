use celestus::json::JsonValue;
use celestus::records::{HasConfig, HasName, Predefined, SeedRecord};
use celestus::role_group::RoleGroupInput;
use celestus::security::{
    any_duplicates, config_level, filter_secure_data, fix_unsecure_data, get_max_level,
    is_data_secure, is_secure, remove_duplicates, set_data_secure, set_level_ok,
};
use celestus::seeds::{is_seed_needed, seed_file_check};

fn rec(name: &str, level: u64) -> SeedRecord {
    SeedRecord::new(
        name.to_owned(),
        Some(JsonValue::Object(vec![("level".to_owned(), JsonValue::Number(Some(level)))])),
    )
}

fn rec_no_config(name: &str) -> SeedRecord {
    SeedRecord::new(name.to_owned(), None)
}

fn levels(rs: &Vec<SeedRecord>) -> Vec<(String, Option<u64>)> {
    rs.iter().map(|r| (r.name.clone(), config_level(r))).collect()
}

#[test]
fn scenario_predefined_and_exceptions() {
    let predefined = RoleGroupInput::get_predefined();
    let exceptions = RoleGroupInput::get_exceptions();
    assert_eq!(predefined.len(), 4);
    assert_eq!(exceptions.len(), 2);
    assert_eq!(predefined[0].name, "SYSTEM");
    assert_eq!(config_level(&predefined[0]), Some(u32::MAX as u64));
    assert_eq!(predefined[1].name, "ADMIN");
    assert_eq!(config_level(&predefined[1]), Some(100_000));
    assert_eq!(predefined[2].name, "CLIENT");
    assert_eq!(config_level(&predefined[2]), Some(10_000));
    assert_eq!(predefined[3].name, "USER");
    assert_eq!(config_level(&predefined[3]), Some(1_000));
    assert_eq!(get_max_level(), u32::MAX);
    // The canonical set itself is secure: what recovery writes passes
    // validation when read back.
    assert!(is_data_secure(&predefined, &exceptions));
}

#[test]
fn scenario_a_exempt_levels() {
    let exceptions = RoleGroupInput::get_exceptions();
    // An exempted identity must carry exactly its canonical level.
    assert!(is_secure(&rec("ADMIN", 100_000), &exceptions));
    assert!(!is_secure(&rec("ADMIN", 1), &exceptions));
    assert!(!is_secure(&rec("ADMIN", 100_001), &exceptions));
}

#[test]
fn scenario_b_ceiling() {
    let exceptions = RoleGroupInput::get_exceptions();
    // max_allowed_level is 100000: reaching it is a violation.
    assert!(is_secure(&rec("USER", 99_999), &exceptions));
    assert!(!is_secure(&rec("USER", 100_000), &exceptions));
    assert!(!is_secure(&rec("USER", 100_001), &exceptions));
}

#[test]
fn candidate_without_level_is_insecure() {
    let exceptions = RoleGroupInput::get_exceptions();
    assert!(!is_secure(&rec_no_config("USER"), &exceptions));
    let no_level = SeedRecord::new("USER".to_owned(), Some(JsonValue::Object(vec![])));
    assert!(!is_secure(&no_level, &exceptions));
    let wrong_type = SeedRecord::new(
        "USER".to_owned(),
        Some(JsonValue::Object(vec![(
            "level".to_owned(),
            JsonValue::Text("9".to_owned()),
        )])),
    );
    assert!(!is_secure(&wrong_type, &exceptions));
    let not_u64 = SeedRecord::new(
        "USER".to_owned(),
        Some(JsonValue::Object(vec![("level".to_owned(), JsonValue::Number(None))])),
    );
    assert!(!is_secure(&not_u64, &exceptions));
}

#[test]
fn duplicates_make_set_insecure() {
    let exceptions = RoleGroupInput::get_exceptions();
    let set = vec![rec("USER", 10), rec("USER", 20)];
    assert!(any_duplicates(&set));
    // Both records are individually secure, yet the set is not.
    assert!(is_secure(&set[0], &exceptions));
    assert!(is_secure(&set[1], &exceptions));
    assert!(!is_data_secure(&set, &exceptions));
}

#[test]
fn filter_retains_only_secure() {
    let exceptions = RoleGroupInput::get_exceptions();
    let mut set = vec![
        rec("USER", 1_000),
        rec("EVIL", 100_000),
        rec("ADMIN", 3),
        rec("CLIENT", 10_000),
    ];
    set_data_secure(&mut set, &exceptions, true);
    for r in set.iter() {
        assert!(is_secure(r, &exceptions));
    }
    let names: Vec<String> = set.iter().map(|r| r.name.clone()).collect();
    assert_eq!(names, vec!["CLIENT".to_owned(), "USER".to_owned()]);
}

#[test]
fn fix_resets_insecure_to_zero() {
    let exceptions = RoleGroupInput::get_exceptions();
    let mut set = vec![rec("EVIL", 100_000), rec("USER", 500), rec_no_config("GHOST")];
    fix_unsecure_data(&mut set, &exceptions);
    assert_eq!(
        levels(&set),
        vec![
            ("EVIL".to_owned(), Some(0)),
            ("USER".to_owned(), Some(500)),
            ("GHOST".to_owned(), Some(0)),
        ]
    );
}

#[test]
fn fix_quarantines_exception_impersonator() {
    let exceptions = RoleGroupInput::get_exceptions();
    let mut candidate = rec("ADMIN", 5);
    set_level_ok(&mut candidate, &exceptions);
    assert_eq!(candidate.get_name(), "TEST");
    assert_eq!(config_level(&candidate), Some(0));
}

#[test]
fn fix_keeps_secure_candidate_untouched() {
    let exceptions = RoleGroupInput::get_exceptions();
    let mut candidate = rec("USER", 700);
    let copy = rec("USER", 700);
    set_level_ok(&mut candidate, &exceptions);
    assert_eq!(candidate, copy);
}

#[test]
fn remove_duplicates_keeps_first_after_sort() {
    let mut set = vec![rec("B", 5), rec("A", 3), rec("A", 1)];
    remove_duplicates(&mut set);
    assert_eq!(
        levels(&set),
        vec![("A".to_owned(), Some(1)), ("B".to_owned(), Some(5))]
    );
}

#[test]
fn set_data_secure_fix_then_dedup() {
    let exceptions = RoleGroupInput::get_exceptions();
    let mut set = vec![rec("USER", 100_000), rec("USER", 42)];
    set_data_secure(&mut set, &exceptions, false);
    // Both were fixed (the first reset to 0), then the duplicate name
    // was dropped, keeping the first after the sort.
    assert_eq!(set.len(), 1);
    assert_eq!(set[0].name, "USER");
    assert_eq!(config_level(&set[0]), Some(0));
}

#[test]
fn validator_idempotent_on_secure_set() {
    let exceptions = RoleGroupInput::get_exceptions();
    let predefined = RoleGroupInput::get_predefined();
    let mut seeds: Vec<SeedRecord> = RoleGroupInput::get_predefined();
    let needs_recovery = seed_file_check(&mut seeds, &predefined, &exceptions);
    assert!(!needs_recovery);
    assert_eq!(seeds, RoleGroupInput::get_predefined());
    // Running the whole check again still changes nothing.
    let needs_recovery_again = seed_file_check(&mut seeds, &predefined, &exceptions);
    assert!(!needs_recovery_again);
    assert_eq!(seeds, RoleGroupInput::get_predefined());
}

#[test]
fn scenario_c_empty_seed_file_recovers() {
    let exceptions = RoleGroupInput::get_exceptions();
    let predefined = RoleGroupInput::get_predefined();
    // A missing or unparsable file yields an empty candidate set.
    let mut seeds: Vec<SeedRecord> = vec![];
    let needs_recovery = seed_file_check(&mut seeds, &predefined, &exceptions);
    assert!(needs_recovery);
    assert!(seeds.is_empty());
    // Recovery writes exactly the predefined set, which validates.
    let recovered = RoleGroupInput::get_predefined();
    assert!(is_data_secure(&recovered, &exceptions));
}

#[test]
fn seed_file_check_disarms_insecure_set() {
    let exceptions = RoleGroupInput::get_exceptions();
    let predefined = RoleGroupInput::get_predefined();
    let mut seeds = vec![
        rec("SYSTEM", u32::MAX as u64),
        rec("ADMIN", 100_000),
        rec("CLIENT", 10_000),
        rec("EVIL", 200_000),
    ];
    let needs_recovery = seed_file_check(&mut seeds, &predefined, &exceptions);
    // Enough records remain after the repair, so no rewrite happens.
    assert!(!needs_recovery);
    assert_eq!(seeds.len(), 4);
    let evil = seeds.iter().find(|r| r.name == "EVIL").unwrap();
    assert_eq!(config_level(evil), Some(0));
}

#[test]
fn is_seed_needed_compares_counts() {
    assert!(is_seed_needed(0, 1));
    assert!(is_seed_needed(3, 4));
    assert!(!is_seed_needed(4, 4));
    assert!(!is_seed_needed(10, 4));
}

#[test]
fn record_accessors() {
    let mut r = rec("USER", 7);
    assert_eq!(r.get_name(), "USER");
    r.set_name(&"OTHER".to_owned());
    assert_eq!(r.get_name(), "OTHER");
    assert!(r.get_config().is_some());
    r.set_config(JsonValue::Null);
    assert_eq!(r.get_config(), &Some(JsonValue::Null));
    assert_eq!(config_level(&r), None);
}

#[test]
fn set_data_secure_unchanged_on_sorted_secure_set() {
    let exceptions = RoleGroupInput::get_exceptions();
    // Already sorted by name, names distinct, every record secure.
    let mut set = vec![rec("CLIENT", 10_000), rec("USER", 1_000)];
    let copy = vec![rec("CLIENT", 10_000), rec("USER", 1_000)];
    set_data_secure(&mut set, &exceptions, true);
    assert_eq!(set, copy);
    // A second identical run changes nothing either.
    set_data_secure(&mut set, &exceptions, true);
    assert_eq!(set, copy);
}

#[test]
fn filter_on_already_secure_set_is_identity() {
    let exceptions = RoleGroupInput::get_exceptions();
    let mut set = vec![rec("USER", 1_000), rec("CLIENT", 10_000)];
    let copy = vec![rec("USER", 1_000), rec("CLIENT", 10_000)];
    filter_secure_data(&mut set, &exceptions);
    assert_eq!(set, copy);
}

#[test]
fn seed_file_check_recovers_when_dedup_shrinks_the_set() {
    let exceptions = RoleGroupInput::get_exceptions();
    let predefined = RoleGroupInput::get_predefined();
    // Enough records at first, but two share a name: after the repair
    // pass removes the duplicate, the count drops below the minimum and
    // recovery is required.
    let mut seeds = vec![
        rec("SYSTEM", u32::MAX as u64),
        rec("ADMIN", 100_000),
        rec("USER", 10),
        rec("USER", 20),
    ];
    let needs_recovery = seed_file_check(&mut seeds, &predefined, &exceptions);
    assert!(needs_recovery);
    assert_eq!(seeds.len(), 3);
}

#[test]
fn short_seed_file_is_left_alone_and_recovered() {
    let exceptions = RoleGroupInput::get_exceptions();
    let predefined = RoleGroupInput::get_predefined();
    let mut seeds = vec![rec("EVIL", 500_000)];
    let copy = vec![rec("EVIL", 500_000)];
    let needs_recovery = seed_file_check(&mut seeds, &predefined, &exceptions);
    // Below the count threshold the validator is not even consulted.
    assert!(needs_recovery);
    assert_eq!(seeds, copy);
}

#[test]
fn exception_at_ceiling_is_secure_only_as_itself() {
    let exceptions = RoleGroupInput::get_exceptions();
    // SYSTEM is pinned to the maximum level.
    assert!(is_secure(&rec("SYSTEM", u32::MAX as u64), &exceptions));
    assert!(!is_secure(&rec("SYSTEM", 100_000), &exceptions));
}
