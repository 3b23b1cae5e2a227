[package]
name = "cargo-clean-artifact"
version = "0.1.0"
edition = "2021"
publish = false

[dependencies]
anstyle = "*"
anyhow = "*"
cargo_metadata = "*"
clap = { version = "*", features = ["derive"] }
console = "*"
env_logger = "*"
futures = "*"
indicatif = "*"
log = "*"
serde_json = "*"
tokio = { version = "*", features = ["fs", "io-util", "macros", "process", "rt-multi-thread"] }
