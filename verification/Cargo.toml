[package]
name = "domain_scan"
version = "0.1.0"
edition = "2021"
publish = false

[dependencies]
sha2 = "=0.10.9"
globset = "=0.4.21"
regex = "=1.13.1"
serde = { version = "=1.0.229", features = ["derive"] }
serde_json = "=1.0.154"
toml = "=0.8.23"
clap = { version = "=4.6.7", features = ["derive"] }
chrono = "=0.4.45"
ratatui = "=0.29.0"
crossterm = "=0.28.1"
dashmap = "=6.2.1"
bincode = "=1.3.3"
ignore = "=0.4.34"
thiserror = "=2.0.21"
comfy-table = { version = "7", default-features = false }
