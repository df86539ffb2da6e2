//! The control plane's configuration values. Loading them from a file
//! and the environment is the binary's concern; the values live here.

use vstd::prelude::*;

verus! {

/// The control plane's settings.
#[derive(Debug)]
pub struct GatewayCpConfig {
    pub bind: String,
    pub grpc_bind: String,
    pub logging: LoggingConfig,
    pub database_url: String,
}

/// Log verbosity and format.
#[derive(Debug)]
pub struct LoggingConfig {
    pub level: String,
    pub json: bool,
}

} // verus!
