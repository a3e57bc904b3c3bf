[package]
name = "cargo_compat"
version = "0.1.0"
edition = "2021"
publish = false

[dependencies]
cargo-util-schemas = "=0.8.2"
chrono = "=0.4.45"
clap = { version = "=4.6.7", features = ["derive"] }
crates_io_api = "=0.12.0"
either = "=1.19.0"
fern = { version = "=0.7.1", features = ["colored"] }
futures = "=0.3.34"
glob = "=0.3.4"
log = "=0.4.34"
semver = { version = "=1.0.28", features = ["serde"] }
serde = { version = "=1.0.229", features = ["derive"] }
serde_cbor = "=0.11.2"
thiserror = "=2.0.21"
tokio = { version = "=1.53.2", features = ["macros", "rt-multi-thread"] }
toml = "=0.8.23"
