//! The error taxonomy of the bootstrap: database and seeding failures,
//! missing or unreadable configuration, and provider-discovery failures.

use vstd::prelude::*;

verus! {

#[derive(Debug, PartialEq, Eq, Structural)]
pub enum DatabaseError {
    URLGenerationFailed,
    PoolCreationFailed,
    ConnectFailed,
    SeedFailed,
    DataSelectFailed,
    DataCreateFailed,
    DataUpdateFailed,
    DataDeleteFailed,
    DataCorruptionAttempt,
    DataSecureFailed,
    RecoveryFailed,
}

impl DatabaseError {
    pub fn message(&self) -> String {
        match self {
            DatabaseError::URLGenerationFailed => "Failed to generate database URL!".to_owned(),
            DatabaseError::PoolCreationFailed => "Failed to create database connection pool!".to_owned(),
            DatabaseError::ConnectFailed => "Failed to connect to database! Please check credentials in the .env file and try again!".to_owned(),
            DatabaseError::SeedFailed => "Failed to seed data!".to_owned(),
            DatabaseError::DataSelectFailed => "Failed to select data!".to_owned(),
            DatabaseError::DataCreateFailed => "Failed to create data!".to_owned(),
            DatabaseError::DataUpdateFailed => "Failed to update data!".to_owned(),
            DatabaseError::DataDeleteFailed => "Failed to delete data!".to_owned(),
            DatabaseError::DataCorruptionAttempt => "Data corruption attempt!".to_owned(),
            DatabaseError::DataSecureFailed => "Securing data failed!".to_owned(),
            DatabaseError::RecoveryFailed => "Failed to recover from an unsuccessful operation!".to_owned(),
        }
    }
}

#[derive(Debug, PartialEq, Eq, Structural)]
pub enum SeedDatabaseError {
    SeedInfoGetFailed,
    SeedCheckFailed,
    SeedFileNotFound,
    SeedRecoveryFailed,
}

impl SeedDatabaseError {
    pub fn message(&self) -> String {
        match self {
            SeedDatabaseError::SeedInfoGetFailed => "Failed to obtain seed information!".to_owned(),
            SeedDatabaseError::SeedCheckFailed => "Failed to check seed information!".to_owned(),
            SeedDatabaseError::SeedFileNotFound => "Seed file not found!".to_owned(),
            SeedDatabaseError::SeedRecoveryFailed => "Failed to recover seed file!".to_owned(),
        }
    }
}

/// A required setting could not be resolved: the variable is not set, or
/// its value cannot be read at the declared type. Both are fatal when no
/// default is declared. The payload names the environment variable.
#[derive(Debug)]
pub enum ConfigError {
    NotDefined(String),
    NotParsable(String),
}

impl ConfigError {
    pub fn message(&self) -> String {
        let mut m: String = match self {
            ConfigError::NotDefined(_) => "environment variable is not defined, and a default value is not assigned: ".to_owned(),
            ConfigError::NotParsable(_) => "environment variable is defined but its type cannot be read: ".to_owned(),
        };
        match self {
            ConfigError::NotDefined(name) => m.append(name.as_str()),
            ConfigError::NotParsable(name) => m.append(name.as_str()),
        }
        m
    }
}

/// A declared provider could not be constructed: either the list of
/// provider names is missing entirely, or one provider's parameters are
/// malformed. The payload names the provider.
#[derive(Debug)]
pub enum ProviderDiscoveryError {
    ProvidersListMissing,
    ProviderEnvInvalid(String),
}

impl ProviderDiscoveryError {
    pub fn message(&self) -> String {
        match self {
            ProviderDiscoveryError::ProvidersListMissing => "the secrets-provider list is not set while the use-secrets-provider flag is on".to_owned(),
            ProviderDiscoveryError::ProviderEnvInvalid(name) => {
                let mut m: String = "a declared secrets provider is missing or has malformed connection variables: ".to_owned();
                m.append(name.as_str());
                m
            },
        }
    }
}

} // verus!
