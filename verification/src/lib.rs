//! Resolves a named profile to a project's secrets: a time-boxed on-disk
//! cache of remote secret fetches, layered override merging, and the
//! configuration evaluation that ties them together.

pub mod bitwarden;
pub mod cache;
pub mod cli;
pub mod codec;
pub mod config;
pub mod config_toml;
pub mod config_yaml;
pub mod data;
pub mod error;
pub mod run;
pub mod secrets;
pub mod time;
pub mod version;
