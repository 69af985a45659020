//! The data-provider model: a named external data source with its
//! connection parameters, provision mode (fetch once at startup or on
//! demand) and connectivity shape.

pub mod data;
pub mod secrets;
pub mod vault;

use vstd::prelude::*;

verus! {

#[derive(Debug, Clone, Copy, PartialEq, Eq, Structural)]
pub enum DataProvision {
    OneTime,
    OnDemand,
}

#[derive(Debug, Clone, Copy, PartialEq, Eq, Structural)]
pub enum DataProviderConnectivity {
    SingleConnection,
    ConnectionPool,
}

/// A normalized provider identifier.
#[derive(Debug)]
pub struct DataProviderName(pub String);

impl DataProviderName {
    pub fn from_name(value: &str) -> (r: DataProviderName)
        ensures
            r.0@ == value@,
    {
        DataProviderName(value.to_owned())
    }
}

impl From<String> for DataProviderName {
    fn from(value: String) -> (r: DataProviderName)
        ensures
            r.0@ == value@,
    {
        DataProviderName(value)
    }
}

impl vstd::std_specs::convert::FromSpecImpl<String> for DataProviderName {
    open spec fn obeys_from_spec() -> bool {
        true
    }

    open spec fn from_spec(value: String) -> DataProviderName {
        DataProviderName(value)
    }
}

/// One configured external data provider. `provision_type` governs
/// whether its data is fetched once at construction or lazily per
/// access; the implementation is absent until the concrete backend is
/// wired in.
pub struct DataProvider<ConnectionInfo, Implementation> {
    name: String,
    prefix: String,
    connection_info: ConnectionInfo,
    provision_type: DataProvision,
    connectivity: DataProviderConnectivity,
    implementation: Option<Implementation>,
}

impl<ConnectionInfo, Implementation> DataProvider<ConnectionInfo, Implementation> {
    pub closed spec fn spec_name(&self) -> Seq<char> {
        self.name@
    }

    pub closed spec fn spec_prefix(&self) -> Seq<char> {
        self.prefix@
    }

    pub closed spec fn spec_connection_info(&self) -> ConnectionInfo {
        self.connection_info
    }

    pub closed spec fn spec_provision_type(&self) -> DataProvision {
        self.provision_type
    }

    pub closed spec fn spec_connectivity(&self) -> DataProviderConnectivity {
        self.connectivity
    }

    pub closed spec fn spec_implementation(&self) -> Option<Implementation> {
        self.implementation
    }

    pub fn new(
        name: String,
        prefix: String,
        connection_info: ConnectionInfo,
        provision_type: DataProvision,
        connectivity: DataProviderConnectivity,
        implementation: Option<Implementation>,
    ) -> (r: DataProvider<ConnectionInfo, Implementation>)
        ensures
            r.spec_name() == name@,
            r.spec_prefix() == prefix@,
            r.spec_connection_info() == connection_info,
            r.spec_provision_type() == provision_type,
            r.spec_connectivity() == connectivity,
            r.spec_implementation() == implementation,
    {
        DataProvider { name, prefix, connection_info, provision_type, connectivity, implementation }
    }

    pub fn get_name(&self) -> (r: &String)
        ensures
            r@ == self.spec_name(),
    {
        &self.name
    }

    pub fn get_prefix(&self) -> (r: &String)
        ensures
            r@ == self.spec_prefix(),
    {
        &self.prefix
    }

    pub fn get_provision_type(&self) -> (r: &DataProvision)
        ensures
            *r == self.spec_provision_type(),
    {
        &self.provision_type
    }

    pub fn get_connectivity(&self) -> (r: &DataProviderConnectivity)
        ensures
            *r == self.spec_connectivity(),
    {
        &self.connectivity
    }

    pub fn get_implementation(&self) -> (r: Option<&Implementation>)
        ensures
            match r {
                Some(i) => self.spec_implementation() == Some(*i),
                None => self.spec_implementation() is None,
            },
    {
        self.implementation.as_ref()
    }
}

/// What a provider's environment data decides about provisioning.
pub trait DataProvisionActions {
    fn get_provision_type(&self) -> DataProvision;
}

} // verus!
