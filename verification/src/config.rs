//! Which configuration file a run uses: the current format is preferred
//! over the older one, and a missing file is a hard failure.

use vstd::prelude::*;
use crate::error::ConfigError;

verus! {

/// A found configuration file, by format.
#[derive(Debug)]
pub enum LocalConfig {
    Yaml(String),
    Toml(String),
}

impl LocalConfig {
    /// The path of the found file.
    pub fn as_pathbuf(&self) -> (r: &String)
        ensures
            match self {
                LocalConfig::Yaml(p) => r@ == p@,
                LocalConfig::Toml(p) => r@ == p@,
            },
    {
        match self {
            Self::Yaml(path) => path,
            Self::Toml(path) => path,
        }
    }
}

/// Picks the configuration file among the candidates an ancestor-directory
/// walk found, one per recognized filename: `bwenv.yaml` first, then
/// `bwenv.yml`, then `bwenv.toml`; none found is the `NotFound` failure.
pub fn find_local_config(
    yaml: Option<String>,
    yml: Option<String>,
    toml: Option<String>,
) -> (r: Result<LocalConfig, ConfigError>)
    ensures
        match r {
            Ok(c) => match c {
                LocalConfig::Yaml(p) => (yaml is Some && p@ == yaml->0@)
                    || (yaml is None && yml is Some && p@ == yml->0@),
                LocalConfig::Toml(p) => yaml is None && yml is None && toml is Some
                    && p@ == toml->0@,
            },
            Err(e) => yaml is None && yml is None && toml is None
                && e == ConfigError::NotFound,
        },
{
    if let Some(path) = yaml {
        return Ok(LocalConfig::Yaml(path));
    }
    if let Some(path) = yml {
        return Ok(LocalConfig::Yaml(path));
    }
    if let Some(path) = toml {
        return Ok(LocalConfig::Toml(path));
    }
    Err(ConfigError::NotFound)
}

} // verus!
