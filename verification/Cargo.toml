[package]
name = "rewind"
version = "0.1.0"
edition = "2021"
publish = false

[dependencies]
anyhow = "1"
blake3 = "1"
clap = { version = "4", features = ["derive"] }
clap_complete = "4"
clap_mangen = "0.2"
crossbeam-channel = "0.5"
crossterm = "0.28"
dirs = "5"
ignore = "0.4"
notify = "6"
portable-pty = "0.8"
ratatui = "0.29"
rusqlite = { version = "0.32", features = ["bundled"] }
serde = { version = "1", features = ["derive"] }
serde_json = "1"
similar = "2"
thiserror = "1"
time = { version = "0.3", features = ["formatting"] }
toml = "0.8"
tracing-subscriber = { version = "0.3", features = ["env-filter"] }
vt100 = "0.15"
