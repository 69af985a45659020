//! The role-group seed entity: the compiled-in canonical record set, the
//! exception subset, and the proof that a recovered seed file is secure.

use vstd::prelude::*;
use crate::json::{obj_key_index, JsonValue};
use crate::records::{Predefined, SeedRecord};
use crate::security::{
    find_exception, is_data_secure_spec, is_secure_spec, no_dup_names, rec_level, spec_min_level,
    wf_exceptions,
};

verus! {

/// Role-group seed records share the common record shape.
pub type RoleGroupInput = SeedRecord;

/// The typed shape of a role-group configuration.
#[derive(Debug, PartialEq, Eq, Structural)]
pub struct RoleGroupConfig {
    pub level: Option<u32>,
}

pub const ADMIN_ROLE_LEVEL: u32 = 100000;

pub const CLIENT_ROLE_LEVEL: u32 = 10000;

pub const USER_ROLE_LEVEL: u32 = 1000;

/// The whole shape of one canonical record: the given name, and a
/// configuration that is exactly the one-entry object binding `level`
/// to the given value.
pub open spec fn is_level_record(r: SeedRecord, name: Seq<char>, level: u64) -> bool {
    r.name@ == name && (r.config matches Some(c) && c matches JsonValue::Object(es) && es@.len()
        == 1 && es@[0].0@ == "level"@ && es@[0].1 == JsonValue::Number(Some(level)))
}

/// A canonical record's privilege level is the one its shape fixes.
pub proof fn lemma_level_record_rec_level(r: SeedRecord, name: Seq<char>, level: u64)
    requires
        is_level_record(r, name, level),
    ensures
        rec_level(r) == Some(level),
{
    let es = r.config->Some_0->Object_0;
    assert(obj_key_index(es@, "level"@) == 0);
}

/// The canonical predefined role groups: each record pinned whole, by
/// name, level and configuration shape.
pub open spec fn spec_role_group_predefined(s: Seq<SeedRecord>) -> bool {
    s.len() == 4 && is_level_record(s[0], "SYSTEM"@, u32::MAX as u64) && is_level_record(
        s[1],
        "ADMIN"@,
        100000u64,
    ) && is_level_record(s[2], "CLIENT"@, 10000u64) && is_level_record(s[3], "USER"@, 1000u64)
}

/// The canonical exceptions: the two highest-privilege role groups,
/// pinned whole.
pub open spec fn spec_role_group_exceptions(s: Seq<SeedRecord>) -> bool {
    s.len() == 2 && is_level_record(s[0], "SYSTEM"@, u32::MAX as u64) && is_level_record(
        s[1],
        "ADMIN"@,
        100000u64,
    )
}

/// Builds one role-group record with the given privilege level.
fn role_group_record(name: &str, level: u64) -> (r: SeedRecord)
    ensures
        is_level_record(r, name@, level),
{
    let key: String = "level".to_owned();
    let mut es: Vec<(String, JsonValue)> = Vec::new();
    es.push((key, JsonValue::Number(Some(level))));
    proof {
        assert(es@[0].0@ == "level"@);
        assert(obj_key_index(es@, "level"@) == 0);
    }
    SeedRecord { name: name.to_owned(), config: Some(JsonValue::Object(es)) }
}

impl Predefined for RoleGroupInput {
    fn get_predefined() -> (r: Vec<SeedRecord>)
        ensures
            spec_role_group_predefined(r@),
    {
        let mut v: Vec<SeedRecord> = Vec::new();
        let max = crate::security::get_max_level();
        v.push(role_group_record("SYSTEM", max as u64));
        v.push(role_group_record("ADMIN", ADMIN_ROLE_LEVEL as u64));
        v.push(role_group_record("CLIENT", CLIENT_ROLE_LEVEL as u64));
        v.push(role_group_record("USER", USER_ROLE_LEVEL as u64));
        v
    }

    fn get_exceptions() -> (r: Vec<SeedRecord>)
        ensures
            spec_role_group_exceptions(r@),
    {
        let mut v: Vec<SeedRecord> = Vec::new();
        let max = crate::security::get_max_level();
        v.push(role_group_record("SYSTEM", max as u64));
        v.push(role_group_record("ADMIN", ADMIN_ROLE_LEVEL as u64));
        v
    }
}

/// The canonical predefined set, re-read and re-validated against the
/// canonical exceptions, is always reported secure: recovering the seed
/// file yields data that passes the validator.
pub proof fn lemma_predefined_secure(p: Seq<SeedRecord>, e: Seq<SeedRecord>)
    requires
        spec_role_group_predefined(p),
        spec_role_group_exceptions(e),
    ensures
        wf_exceptions(e),
        is_data_secure_spec(p, e),
{
    reveal_strlit("SYSTEM");
    reveal_strlit("ADMIN");
    reveal_strlit("CLIENT");
    reveal_strlit("USER");
    lemma_level_record_rec_level(e[0], "SYSTEM"@, u32::MAX as u64);
    lemma_level_record_rec_level(e[1], "ADMIN"@, 100000u64);
    lemma_level_record_rec_level(p[0], "SYSTEM"@, u32::MAX as u64);
    lemma_level_record_rec_level(p[1], "ADMIN"@, 100000u64);
    lemma_level_record_rec_level(p[2], "CLIENT"@, 10000u64);
    lemma_level_record_rec_level(p[3], "USER"@, 1000u64);
    assert(wf_exceptions(e)) by {
        assert(rec_level(e[0]) is Some && rec_level(e[1]) is Some);
    }
    assert("SYSTEM"@.len() == 6);
    assert("ADMIN"@.len() == 5);
    assert("CLIENT"@.len() == 6);
    assert("USER"@.len() == 4);
    assert("SYSTEM"@[0] == 'S' && "CLIENT"@[0] == 'C');
    assert("SYSTEM"@ != "ADMIN"@);
    assert("SYSTEM"@ != "CLIENT"@);
    assert("SYSTEM"@ != "USER"@);
    assert("ADMIN"@ != "CLIENT"@);
    assert("ADMIN"@ != "USER"@);
    assert("CLIENT"@ != "USER"@);
    assert(no_dup_names(p)) by {
        assert forall|i: int, j: int| 0 <= i < j < p.len() implies p[i].name@ != p[j].name@ by {}
    }
    let min = spec_min_level(e);
    assert(min == 100000u64) by {
        assert(e.drop_first()[0] == e[1]);
        assert(e.drop_first().drop_first().len() == 0);
        assert(spec_min_level(e.drop_first().drop_first()) == u64::MAX);
        assert(spec_min_level(e.drop_first()) == 100000u64);
        assert(u32::MAX as u64 >= 100000u64);
    }
    assert(find_exception(e, "SYSTEM"@) == Some(e[0]));
    assert(find_exception(e, "ADMIN"@) == Some(e[1])) by {
        reveal_with_fuel(find_exception, 3);
        assert(e.drop_first()[0] == e[1]);
    }
    assert(find_exception(e, "CLIENT"@) is None) by {
        reveal_with_fuel(find_exception, 4);
        assert(e.drop_first()[0] == e[1]);
        assert(e.drop_first().drop_first().len() == 0);
    }
    assert(find_exception(e, "USER"@) is None) by {
        reveal_with_fuel(find_exception, 4);
        assert(e.drop_first()[0] == e[1]);
        assert(e.drop_first().drop_first().len() == 0);
    }
    assert(is_secure_spec(p[0], e));
    assert(is_secure_spec(p[1], e));
    assert(is_secure_spec(p[2], e)) by {
        assert(10000u64 < min);
    }
    assert(is_secure_spec(p[3], e)) by {
        assert(1000u64 < min);
    }
    assert forall|i: int| 0 <= i < p.len() implies is_secure_spec(p[i], e) by {
        if i == 0 {
        } else if i == 1 {
        } else if i == 2 {
        } else {
            assert(i == 3);
        }
    }
}

} // verus!
