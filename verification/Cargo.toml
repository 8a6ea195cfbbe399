[package]
name = "vault_core"
version = "0.1.0"
edition = "2021"
publish = false

[dependencies]
openssl = "0.10"
uuid = { version = "*", features = ["v4"] }
chrono = "0.4"
serde = { version = "1", features = ["derive"] }
serde_json = "1"
