//! Compiled-in constants of the storage layer: which entities are
//! seeded, from which file, and with which minimum record counts, per
//! environment.

use vstd::prelude::*;
use crate::environment::Environment;
use crate::seeds::{SeedModels, SeedProps};

verus! {

pub struct Consts {
    pub environment: Environment,
    pub seed_consts: Vec<SeedProps>,
}

impl Consts {
    /// The seeding table for one environment: system configurations and
    /// role groups, with their per-environment seed-file paths and
    /// minimum record counts.
    pub fn new(environment: Environment) -> (r: Consts)
        ensures
            r.environment == environment,
            r.seed_consts@.len() == 2,
            r.seed_consts@[0].model is SystemConfig,
            r.seed_consts@[0].name@ == "system_configs"@,
            r.seed_consts@[0].minimum_required == 1,
            r.seed_consts@[1].model is RoleGroup,
            r.seed_consts@[1].name@ == "role_groups"@,
            r.seed_consts@[1].minimum_required == 4,
            environment is Production ==> r.seed_consts@[0].file_path@
                == "./data/seed/system_configs.json"@ && r.seed_consts@[1].file_path@
                == "./data/seed/role_groups.json"@,
            environment is Development ==> r.seed_consts@[0].file_path@
                == "./src/lib/database/models/system_config/data/seed.json"@ && r.seed_consts@[1].file_path@
                == "./src/lib/database/models/role_group/data/seed.json"@,
    {
        let system_config_seed_file_path: String = match environment {
            Environment::Production => "./data/seed/system_configs.json".to_owned(),
            Environment::Development => "./src/lib/database/models/system_config/data/seed.json".to_owned(),
        };
        let role_group_seed_file_path: String = match environment {
            Environment::Production => "./data/seed/role_groups.json".to_owned(),
            Environment::Development => "./src/lib/database/models/role_group/data/seed.json".to_owned(),
        };
        let mut seed_consts: Vec<SeedProps> = Vec::new();
        seed_consts.push(
            SeedProps {
                model: SeedModels::SystemConfig,
                name: "system_configs".to_owned(),
                file_path: system_config_seed_file_path,
                minimum_required: 1,
            },
        );
        seed_consts.push(
            SeedProps {
                model: SeedModels::RoleGroup,
                name: "role_groups".to_owned(),
                file_path: role_group_seed_file_path,
                minimum_required: 4,
            },
        );
        Consts { environment, seed_consts }
    }
}

} // verus!
