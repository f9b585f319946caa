[package]
name = "nft_backend"
version = "0.1.0"
edition = "2021"
publish = false

[dependencies]
candid = "*"
ic-cdk = "*"
ic-ledger-types = "*"
serde = { version = "*", features = ["derive"] }
