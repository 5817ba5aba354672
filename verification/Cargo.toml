[package]
name = "event_store"
version = "0.1.0"
edition = "2021"
publish = false

[dependencies]
base64 = "*"
candid = "*"
ic-cdk = "*"
serde = { version = "*", features = ["derive"] }
