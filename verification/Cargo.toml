[package]
name = "witness_generator"
version = "0.1.0"
edition = "2021"
publish = false

[dependencies]
http = "1"
serde = { version = "1", features = ["derive"] }
serde_json = "1"
thiserror = "2"
anyhow = "1"
async-trait = "0.1"
walkdir = "2"
clap = { version = "4.5", features = ["derive"] }
tokio = { version = "1", features = ["macros", "rt-multi-thread"] }
jsonrpsee = { version = "0.25", default-features = false, features = ["http-client"] }
alloy-eips = "1.0"
