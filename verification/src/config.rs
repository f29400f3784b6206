//! The configuration model: where the data lives, how syncing
//! behaves, and the licensure targets.
//!
//! Reading and writing the configuration file, environment overrides
//! and tilde expansion are the surrounding application's work; the
//! core only carries the values.

use vstd::prelude::*;

use crate::progress::LicensureConfig;

verus! {

/// Where the ledger file lives.
#[derive(Clone, Debug)]
pub struct DataConfig {
    pub directory: String,
}

/// How the version-control sync collaborator is driven.
#[derive(Clone, Debug)]
pub struct GitConfig {
    pub remote: String,
    pub auto_push: bool,
}

/// The whole configuration.
#[derive(Clone, Debug)]
pub struct Config {
    pub data: DataConfig,
    pub git: GitConfig,
    pub licensure: LicensureConfig,
}

} // verus!
