[package]
name = "beacon_chain"
version = "0.1.0"
edition = "2021"
publish = false

[dependencies]
dirs = "*"
futures = "*"
reqwest = { version = "*", default-features = false, features = ["json"] }
serde = { version = "*", features = ["derive"] }
serde_derive = "*"
