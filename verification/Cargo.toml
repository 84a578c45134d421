[package]
name = "exchange_actions"
version = "0.1.0"
edition = "2021"
publish = false

[dependencies]
ethers = { version = "2.0", default-features = false }
serde = { version = "1.0", features = ["derive"] }
serde_json = "1.0"
