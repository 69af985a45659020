//! The record shape shared by every seedable entity: a name plus an
//! optional JSON configuration. The capability traits `HasName` and
//! `HasConfig` describe what the seed-integrity validator needs of a
//! record; `Predefined` supplies an entity's canonical record sets.

use vstd::prelude::*;
use crate::json::JsonValue;

verus! {

/// One seed record: the unit the integrity validator reasons about.
/// `config`, when present, is expected to be a JSON object whose
/// `level` property carries the record's privilege level.
#[derive(Debug, PartialEq)]
pub struct SeedRecord {
    pub name: String,
    pub config: Option<JsonValue>,
}

impl SeedRecord {
    pub fn new(name: String, config: Option<JsonValue>) -> (r: SeedRecord)
        ensures
            r.name == name,
            r.config == config,
    {
        SeedRecord { name, config }
    }
}

pub trait HasName {
    fn get_name(&self) -> &String;

    fn set_name(&mut self, name: &String);
}

pub trait HasConfig {
    fn get_config(&self) -> &Option<JsonValue>;

    fn set_config(&mut self, config: JsonValue);
}

impl HasName for SeedRecord {
    fn get_name(&self) -> (r: &String)
        ensures
            *r == self.name,
    {
        &self.name
    }

    fn set_name(&mut self, name: &String)
        ensures
            final(self).name@ == name@,
            final(self).config == old(self).config,
    {
        self.name = name.clone();
    }
}

impl HasConfig for SeedRecord {
    fn get_config(&self) -> (r: &Option<JsonValue>)
        ensures
            *r == self.config,
    {
        &self.config
    }

    fn set_config(&mut self, config: JsonValue)
        ensures
            final(self).config == Some(config),
            final(self).name == old(self).name,
    {
        self.config = Some(config);
    }
}

/// Canonical data for one seedable entity: the compiled-in authoritative
/// record set and the subset that is exempt from the privilege ceiling.
pub trait Predefined {
    fn get_predefined() -> Vec<SeedRecord>;

    fn get_exceptions() -> Vec<SeedRecord>;
}

} // verus!
