[package]
name = "newviso"
version = "0.1.0"
edition = "2021"
publish = false

[dependencies]
serde = { version = "=1.0.229", features = ["derive"] }
serde_json = "=1.0.154"
blake3 = { version = "1", default-features = false, features = ["std", "pure"] }
