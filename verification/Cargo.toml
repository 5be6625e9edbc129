[package]
name = "rusdu"
version = "0.3.3"
edition = "2021"
publish = false

[dependencies]
zstd = "*"
ciborium = "*"
lexopt = "*"
natord = "*"
globset = "*"
serde = { version = "1", features = ["derive"] }
serde_json = "1"
crossterm = "*"
ratatui = "*"
dirs = "*"
notify = "*"
sysinfo = "*"
time = "*"
jwalk = "*"
anyhow = "1"
thiserror = "*"
env_logger = "*"
log = "*"
