[package]
name = "mangodisk_core"
version = "0.1.0"
edition = "2021"
publish = false

[dependencies]
sha2 = "0.10"
log = "0.4"
blake3 = { version = "1", features = ["pure"] }
serde = { version = "1", features = ["derive"] }
serde_json = "1"

[dev-dependencies]
serde = "1"
serde_json = "1"
