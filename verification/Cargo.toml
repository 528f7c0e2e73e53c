[package]
name = "foundry_cli"
version = "0.1.0"
edition = "2021"
publish = false

[dependencies]
ansi_term = "=0.12.1"
clap = { version = "=3.2.25", features = ["derive"] }
dunce = "=1.0.5"
ethers = { version = "=2.0.14", default-features = false, features = ["solc"] }
evm = { version = "=0.41.1", default-features = false }
eyre = "=0.6.14"
rpassword = "=5.0.1"
serde_json = "=1.0.154"
tracing-subscriber = { version = "=0.3.23", features = ["env-filter"] }
