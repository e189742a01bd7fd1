//! The error taxonomy: what is fatal, what is recoverable, and the exact
//! words each condition is reported with.

use vstd::prelude::*;

verus! {

/// Failures of the resolve pipeline as a whole.
#[derive(Debug, PartialEq, Eq, Structural, Clone, Copy)]
pub enum Error {
    _NoProfileInput,
    ProfileNotConfigured,
    _ProjectNotConfigured,
    _RemoteProjectNotFound,
    _CacheDirNorConfigured,
    InvalidConfigurationFile,
    ReadConfigurationFile,
    _NoConfigurationFile,
}

/// Failures of locating, reading and evaluating the configuration file.
#[derive(Debug, PartialEq, Eq, Structural, Clone, Copy)]
pub enum ConfigError {
    Read,
    Parse,
    Invalid,
    NotFound,
    NoProfile,
}

/// The top-level error of the tool.
#[derive(Debug, PartialEq, Eq, Structural, Clone, Copy)]
pub enum BwenvError {
    Config(ConfigError),
}

impl ConfigError {
    /// The words each condition is reported with.
    pub fn message(&self) -> (r: &'static str)
        ensures
            match self {
                ConfigError::Read => r@ == "Error reading configuration file"@,
                ConfigError::Parse => r@ == "Error parsing configuration file"@,
                ConfigError::Invalid => r@ == "Invalid configuration file"@,
                ConfigError::NotFound => r@ == "Configuration file not found"@,
                ConfigError::NoProfile => r@ == "Profile not found in the configuration"@,
            },
    {
        match self {
            ConfigError::Read => "Error reading configuration file",
            ConfigError::Parse => "Error parsing configuration file",
            ConfigError::Invalid => "Invalid configuration file",
            ConfigError::NotFound => "Configuration file not found",
            ConfigError::NoProfile => "Profile not found in the configuration",
        }
    }
}

} // verus!
