[package]
name = "cargo_eventflow"
version = "0.1.0"
edition = "2021"
publish = false

[dependencies]
anyhow = "1"
cargo_metadata = "0.18"
clap = { version = "4", features = ["derive"] }
globset = "0.4"
ignore = "0.4"
proc-macro2 = { version = "1", features = ["span-locations"] }
quote = "1"
serde = { version = "1", features = ["derive"] }
serde_json = "1"
syn = { version = "2", features = ["full", "visit"] }
thiserror = "1"
toml = "0.8"
tracing-subscriber = { version = "0.3", features = ["env-filter"] }
