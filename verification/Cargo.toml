[package]
name = "core-utilities-mcp"
version = "1.0.0"
edition = "2021"
publish = false

[dependencies]
anyhow = "1"
csv = "1"
regex = "1"
serde = { version = "1", features = ["derive"] }
serde_json = "1"
sysinfo = "*"
thiserror = "*"
tokio = { version = "1", features = ["full"] }
toml = "*"
tracing = "0.1"
tracing-subscriber = { version = "0.3", features = ["env-filter"] }
walkdir = "2"
yaml-rust2 = "*"

[dev-dependencies]
tempfile = "3"
