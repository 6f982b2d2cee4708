//! Verified core of the zerobox sandbox supervisor: path arithmetic, address
//! and port allocation, snapshot diffing, object framing, exclusion rules,
//! sandbox policies and the small formatting helpers around them.
use vstd::prelude::*;

pub mod api_routes;
pub mod budget;
pub mod cli_policy;
pub mod config;
pub mod daemon_cli;
pub mod diff;
pub mod exclusion;
pub mod display;
pub mod file_map;
pub mod guest_client;
pub mod hex;
pub mod host_commands;
pub mod jailer;
pub mod lifecycle;
pub mod manager;
pub mod merkle;
pub mod network;
pub mod otel;
pub mod paths;
pub mod registry;
pub mod replay;
pub mod permissions;
pub mod restore;
pub mod rpc;
pub mod sandbox;
pub mod sandbox_manager;
pub mod sandbox_plan;
pub mod sandbox_policy;
pub mod snapshot_catalog;
pub mod snapshot_types;
pub mod store;
pub mod text;
pub mod vm;

verus! {

} // verus!
