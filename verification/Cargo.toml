[package]
name = "fhe_sha256"
version = "0.1.0"
edition = "2021"
publish = false

[dependencies]
tfhe = { version = "*", features = ["boolean"] }
serde = { version = "1", features = ["derive"] }
