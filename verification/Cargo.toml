[package]
name = "asset_proxy"
version = "0.1.0"
edition = "2021"
publish = false

[dependencies]
sha2 = "*"
base64 = "*"
ic-cdk = "*"
ic-cdk-macros = "*"
candid = "*"
serde = { version = "*", features = ["derive"] }
serde_bytes = "*"
