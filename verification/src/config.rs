//! The configuration of a deployment.

use vstd::prelude::*;

verus! {

/// Where the server listens.
#[derive(Debug, Clone, PartialEq, Eq)]
pub struct ServerConfig {
    pub host: String,
    pub port: u16,
}

/// Where the data lives and how often the log is flushed.
#[derive(Debug, Clone, PartialEq, Eq)]
pub struct StorageConfig {
    pub data_dir: String,
    pub wal_flush_interval_ms: u64,
}

/// The configuration of a deployment.
#[derive(Debug, Clone, PartialEq, Eq)]
pub struct AppConfig {
    pub server: ServerConfig,
    pub storage: StorageConfig,
}

} // verus!
