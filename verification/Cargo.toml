[package]
name = "cw_ibc_queries"
version = "0.1.0"
edition = "2021"
publish = false

[dependencies]
cosmwasm-std = { version = "=1.5.11", features = ["stargate", "ibc3"] }
cw-storage-plus = "=1.2.0"
serde = { version = "=1.0.229", features = ["derive"] }
schemars = "=0.8.22"
