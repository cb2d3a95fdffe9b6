[package]
name = "cw-governance"
version = "0.1.0"
edition = "2021"
publish = false

[dependencies]
cosmwasm-std = "1"
cw-storage-plus = "1"
cw-utils = "1"
cw2 = "1"
serde = { version = "1", features = ["derive"] }
thiserror = "1"

[dev-dependencies]
cw-multi-test = "0.20"
cw20 = "1"
cw20-base = "1"
