//! Trusted configuration bootstrap for a backend service: typed settings
//! resolved from the environment, discovery of external secret providers,
//! and a seed-integrity validator that keeps persisted privilege levels
//! consistent with a compiled-in canonical policy.

pub mod cache;
pub mod consts;
pub mod database;
pub mod environment;
pub mod errors;
pub mod json;
pub mod providers;
pub mod records;
pub mod role_group;
pub mod seeds;
pub mod security;
pub mod settings;
pub mod strings;
pub mod web;

use vstd::prelude::*;

verus! {

} // verus!
