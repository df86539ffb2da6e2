//! The data plane's configuration values. Loading them from a file and
//! the environment is the binary's concern; the values live here.

use vstd::prelude::*;

verus! {

/// The data plane's settings.
#[derive(Debug)]
pub struct GatewayDpConfig {
    pub listener: ListenerConfig,
    pub control_plane: ControlPlaneConfig,
    pub logging: LoggingConfig,
    pub limits: LimitsConfig,
}

/// Where the data plane listens.
#[derive(Debug)]
pub struct ListenerConfig {
    pub bind: String,
    pub tls: Option<TlsConfig>,
}

/// A certificate and key pair on disk.
#[derive(Debug)]
pub struct TlsConfig {
    pub cert_path: String,
    pub key_path: String,
}

/// How to reach the control plane.
#[derive(Debug)]
pub struct ControlPlaneConfig {
    pub grpc_endpoint: String,
    pub tls: Option<TlsConfig>,
}

/// Log verbosity, format, and optional rolling file output.
#[derive(Debug)]
pub struct LoggingConfig {
    pub level: String,
    pub json: bool,
    pub rolling_file: Option<RollingFileConfig>,
}

/// Where rolling log files are written.
#[derive(Debug)]
pub struct RollingFileConfig {
    pub directory: String,
    pub prefix: String,
}

/// Request size limits.
#[derive(Debug)]
pub struct LimitsConfig {
    pub max_body_bytes: u64,
    pub pre_upstream_body_bytes: u64,
}

} // verus!
