//! The supervisor's configuration, as read from its YAML file.
use vstd::prelude::*;

verus! {

/// Top-level supervisor configuration.
#[derive(Debug, Clone)]
pub struct Config {
    pub listen: String,
    pub data_dir: String,
    pub log_level: String,
    pub firecracker: FirecrackerConfig,
    pub networking: NetworkingConfig,
    pub timeouts: TimeoutsConfig,
    pub snapshots: SnapshotsConfig,
    pub images: ImagesConfig,
    pub auth: AuthConfig,
}

/// Where Firecracker lives and the VM defaults.
#[derive(Debug, Clone)]
pub struct FirecrackerConfig {
    pub binary: String,
    pub jailer: String,
    pub default_kernel: String,
    pub default_vcpus: u32,
    pub default_memory_mib: u32,
}

/// Host networking: bridge, guest subnet, host port range and uplink.
#[derive(Debug, Clone)]
pub struct NetworkingConfig {
    pub bridge: String,
    pub subnet: String,
    pub host_port_range: String,
    pub outbound_interface: String,
}

/// Sandbox lifetimes in milliseconds.
#[derive(Debug, Clone)]
pub struct TimeoutsConfig {
    pub default_sandbox_timeout_ms: u64,
    pub max_sandbox_timeout_ms: u64,
}

/// Snapshot storage settings.
#[derive(Debug, Clone)]
pub struct SnapshotsConfig {
    pub storage_dir: String,
    pub max_snapshots_per_sandbox: u32,
    pub auto_snapshot_interval_ms: u64,
}

/// A root filesystem image that can be fetched by name.
#[derive(Debug, Clone)]
pub struct PrebuiltImage {
    pub name: String,
    pub url: String,
}

/// Image cache settings.
#[derive(Debug, Clone)]
pub struct ImagesConfig {
    pub cache_dir: String,
    pub prebuilt: Vec<PrebuiltImage>,
}

/// API authentication settings.
#[derive(Debug, Clone)]
pub struct AuthConfig {
    pub enabled: bool,
    pub tokens: Vec<String>,
}

} // verus!
