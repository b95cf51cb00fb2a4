[package]
name = "casino_core"
version = "0.1.0"
edition = "2021"
publish = false

[dependencies]
sha2 = "*"
candid = "*"
serde = { version = "*", features = ["derive"] }
serde_json = "*"
ic-cdk = "*"
ic-cdk-timers = "*"
ic-ledger-types = "*"
ic-stable-structures = "*"
num-bigint = "*"
num-traits = "*"
tokio = { version = "*", features = ["rt", "sync", "time", "macros"] }
