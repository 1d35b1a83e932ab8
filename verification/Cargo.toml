[package]
name = "barustenberg"
version = "0.1.0"
edition = "2021"
publish = false

[dependencies]
ark-bn254 = "0.4"
ark-ec = "0.4"
ark-ff = "0.4"
sha3 = "0.10"
blake3 = { version = "1", default-features = false, features = ["pure"] }
serde = { version = "1", features = ["derive"] }

[dev-dependencies]
rand = "0.8"
