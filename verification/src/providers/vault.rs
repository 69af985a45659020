//! The vault secret-store provider as the settings layer models it: the
//! connection parameters read from the environment, and the provider's
//! local state (engine, connectivity, key-path base). The network client
//! itself, its authentication handshake and key fetches are the
//! embedding application's work.

use vstd::prelude::*;
use crate::providers::{DataProvision, DataProviderConnectivity, DataProvisionActions};
use crate::web::URLInfo;

verus! {

pub const VAULT_SECRETS_PROVIDER_NAME: &'static str = "VAULT";

/// The connection parameters a vault provider declares through prefixed
/// environment variables.
pub struct VaultEnvData {
    host: String,
    port: i32,
    url: String,
    engine: String,
    login_id: String,
    login_pass: String,
    single_use: Option<bool>,
}

impl VaultEnvData {
    pub closed spec fn spec_host(&self) -> Seq<char> {
        self.host@
    }

    pub closed spec fn spec_port(&self) -> i32 {
        self.port
    }

    pub closed spec fn spec_url(&self) -> Seq<char> {
        self.url@
    }

    pub closed spec fn spec_engine(&self) -> Seq<char> {
        self.engine@
    }

    pub closed spec fn spec_login_id(&self) -> Seq<char> {
        self.login_id@
    }

    pub closed spec fn spec_login_pass(&self) -> Seq<char> {
        self.login_pass@
    }

    pub closed spec fn spec_single_use(&self) -> Option<bool> {
        self.single_use
    }

    pub fn new(
        host: String,
        port: i32,
        url: String,
        engine: String,
        login_id: String,
        login_pass: String,
        single_use: Option<bool>,
    ) -> (r: VaultEnvData)
        ensures
            r.spec_host() == host@,
            r.spec_port() == port,
            r.spec_url() == url@,
            r.spec_engine() == engine@,
            r.spec_login_id() == login_id@,
            r.spec_login_pass() == login_pass@,
            r.spec_single_use() == single_use,
    {
        VaultEnvData { host, port, url, engine, login_id, login_pass, single_use }
    }

    pub fn get_login_id(&self) -> (r: &String)
        ensures
            r@ == self.spec_login_id(),
    {
        &self.login_id
    }

    pub fn get_login_pass(&self) -> (r: &String)
        ensures
            r@ == self.spec_login_pass(),
    {
        &self.login_pass
    }

    pub fn get_engine(&self) -> (r: &String)
        ensures
            r@ == self.spec_engine(),
    {
        &self.engine
    }

    pub fn get_single_use(&self) -> (r: &Option<bool>)
        ensures
            *r == self.spec_single_use(),
    {
        &self.single_use
    }
}

impl DataProvisionActions for VaultEnvData {
    /// A provider declared single-use is provisioned once at startup;
    /// leaving the flag out also means once.
    fn get_provision_type(&self) -> (r: DataProvision)
        ensures
            r == (match self.spec_single_use() {
                Some(b) => if b {
                    DataProvision::OneTime
                } else {
                    DataProvision::OnDemand
                },
                None => DataProvision::OneTime,
            }),
    {
        match self.get_single_use() {
            Some(b) => {
                if *b {
                    DataProvision::OneTime
                } else {
                    DataProvision::OnDemand
                }
            },
            None => DataProvision::OneTime,
        }
    }
}

impl URLInfo for VaultEnvData {
    fn get_url(&self) -> (r: &str)
        ensures
            r@ == self.spec_url(),
    {
        self.url.as_str()
    }

    fn get_host(&self) -> (r: &str)
        ensures
            r@ == self.spec_host(),
    {
        self.host.as_str()
    }

    fn get_port(&self) -> (r: i32)
        ensures
            r == self.spec_port(),
    {
        self.port
    }
}

#[derive(Debug, Clone, Copy, PartialEq, Eq, Structural)]
pub enum VaultSecretsEngine {
    KV2,
}

/// The vault provider's local state. The authenticated network client
/// and its blocking runtime live with the embedding application, keyed
/// by the provider's name.
pub struct Vault {
    connectivity: DataProviderConnectivity,
    secrets_engine: VaultSecretsEngine,
    base_path: String,
}

impl Vault {
    pub closed spec fn spec_connectivity(&self) -> DataProviderConnectivity {
        self.connectivity
    }

    pub closed spec fn spec_secrets_engine(&self) -> VaultSecretsEngine {
        self.secrets_engine
    }

    pub closed spec fn spec_base_path(&self) -> Seq<char> {
        self.base_path@
    }

    /// Sets up the provider's local state: a development build reads
    /// keys under the development base path. The caller performs the
    /// role/secret login with `provider_info`'s credentials and the
    /// initial fetch.
    #[allow(unused_variables)]
    pub fn new(provider_info: &VaultEnvData, secrets_engine: VaultSecretsEngine, debug_build: bool) -> (r: Vault)
        ensures
            r.spec_connectivity() is SingleConnection,
            r.spec_secrets_engine() == secrets_engine,
            debug_build ==> r.spec_base_path() == "dev/celestus/"@,
            !debug_build ==> r.spec_base_path() == "celestus/"@,
    {
        let base_path: String = if crate::environment::is_dev_mode(debug_build) {
            "dev/celestus/".to_owned()
        } else {
            "celestus/".to_owned()
        };
        Vault {
            connectivity: DataProviderConnectivity::SingleConnection,
            secrets_engine,
            base_path,
        }
    }

    pub fn get_base_path(&self) -> (r: &String)
        ensures
            r@ == self.spec_base_path(),
    {
        &self.base_path
    }

    pub fn get_connectivity(&self) -> (r: &DataProviderConnectivity)
        ensures
            *r == self.spec_connectivity(),
    {
        &self.connectivity
    }
}

} // verus!
