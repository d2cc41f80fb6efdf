[package]
name = "adonword"
version = "0.1.0"
edition = "2021"
publish = false

[dependencies]
anyhow = "=1.0.104"
axum = "=0.7.9"
chrono = "=0.4.45"
clap = { version = "=4.6.7", features = ["derive"] }
hex = "=0.4.3"
home = "=0.5.12"
netstat2 = "=0.11.2"
serde_json = { version = "=1.0.154", features = ["preserve_order", "raw_value"] }
sha2 = "=0.10.9"
sysinfo = "=0.33.1"
tokio = { version = "=1.54.1", features = ["full"] }
toml = "=0.8.23"
ureq = { version = "=2.12.1", features = ["json"] }
walkdir = "=2.5.0"
