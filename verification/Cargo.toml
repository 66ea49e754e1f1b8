[package]
name = "droplet"
version = "0.1.0"
edition = "2021"
publish = false

[dependencies]
anyhow = "1"
async-channel = "2"
chrono = "0.4"
clap = { version = "4", features = ["derive"] }
dashmap = "*"
env_logger = "*"
gethostname = "*"
likely_stable = "*"
local-ip-address = "*"
log = "0.4"
mysql = "*"
prost = "*"
prost-types = "*"
serde = { version = "1", features = ["derive"] }
strum = { version = "*", features = ["derive"] }
sync-unsafe-cell = "*"
tokio = { version = "1", features = ["full"] }
tokio-graceful-shutdown = "*"
tonic = "*"
tonic-types = "*"
tracing = "0.1"
