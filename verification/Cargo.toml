[package]
name = "nft_bridge"
version = "0.1.0"
edition = "2021"
publish = false

[dependencies]
async-trait = "*"
deadpool-postgres = "*"
log = "*"
postgres-types = { version = "*", features = ["derive"] }
starknet = "*"
tokio-postgres = "*"
