[package]
name = "zerobox"
version = "0.1.0"
edition = "2021"
publish = false

[dependencies]
anyhow = "1"
axum = "0.7"
base64 = "0.22"
blake3 = { version = "1", features = ["pure"] }
chrono = "0.4"
clap = { version = "4", features = ["derive"] }
const-hex = "1"
dirs = "5"
filetime = "0.2"
globset = "0.4"
http-body-util = "0.1"
hyper = { version = "1", features = ["client", "http1"] }
hyper-util = { version = "0.1", features = ["client-legacy", "http1", "tokio"] }
ignore = "0.4"
libc = "0.2"
lz4_flex = "0.11"
nix = { version = "0.29", features = ["signal"] }
rs_merkle = "1"
serde = { version = "1", features = ["derive"] }
serde_json = "1"
serde_yaml = "0.9"
tempfile = "3"
thiserror = "1"
tokio = { version = "1", features = ["full"] }
tower-http = { version = "0.5", features = ["trace"] }
tracing = "0.1"
tracing-subscriber = { version = "0.3", features = ["env-filter"] }
uuid = { version = "1", features = ["v4"] }
