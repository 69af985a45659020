//! The seed-file synchronizer's decision core: whether seeding is needed
//! at all, and the check-and-repair step over the records loaded from a
//! seed file. Reading the file, asking the storage layer for existing
//! rows and rewriting the file on recovery are the caller's work; the
//! decisions here say exactly when each of those steps happens.

use vstd::prelude::*;
use crate::records::SeedRecord;
use crate::security::{
    is_data_secure, is_data_secure_spec, no_dup_names, repaired_from, set_data_secure,
    sorted_records, wf_exceptions,
};

verus! {

/// What one seedable entity needs for its seeding pass.
pub struct SeedProps {
    pub model: SeedModels,
    pub name: String,
    pub file_path: String,
    pub minimum_required: usize,
}

#[derive(Debug, PartialEq, Eq, Structural)]
pub enum SeedModels {
    SystemConfig,
    RoleGroup,
}

/// Whether seeding is needed: only when fewer rows exist than the
/// entity's required minimum. Seeding is a first-run-only operation.
pub fn is_seed_needed(existing_rows: usize, minimum_required: usize) -> (r: bool)
    ensures
        r == (existing_rows < minimum_required),
{
    existing_rows < minimum_required
}

/// The synchronizer's check-and-repair step on the records loaded from
/// the seed file.
///
/// With enough records, a secure set is left untouched. An insecure set
/// is disarmed in place (repair mode, duplicates removed), which by
/// itself does not rewrite the file. The result says whether recovery is
/// needed: it is exactly when, after the above, fewer records remain
/// than the predefined minimum — the caller then overwrites the file
/// with the predefined set.
pub fn seed_file_check(
    seeds: &mut Vec<SeedRecord>,
    predefined: &Vec<SeedRecord>,
    exceptions: &Vec<SeedRecord>,
) -> (needs_recovery: bool)
    requires
        wf_exceptions(exceptions@),
    ensures
        needs_recovery == (final(seeds)@.len() < predefined@.len()),
        old(seeds)@.len() >= predefined@.len() && is_data_secure_spec(old(seeds)@, exceptions@)
            ==> final(seeds)@ == old(seeds)@ && !needs_recovery,
        old(seeds)@.len() < predefined@.len() ==> final(seeds)@ == old(seeds)@ && needs_recovery,
        old(seeds)@.len() >= predefined@.len() && !is_data_secure_spec(old(seeds)@, exceptions@)
            ==> repaired_from(old(seeds)@, final(seeds)@, exceptions@) && no_dup_names(
            final(seeds)@,
        ) && sorted_records(final(seeds)@),
{
    if seeds.len() >= predefined.len() {
        let filter = false;
        let secure = is_data_secure(seeds, exceptions);
        if secure {
            return false;
        }
        set_data_secure(seeds, exceptions, filter);
    }
    seeds.len() < predefined.len()
}

} // verus!
