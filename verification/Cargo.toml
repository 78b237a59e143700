[package]
name = "onedrive_vfs"
version = "0.1.0"
edition = "2021"
publish = false

[dependencies]
lru-cache = "0.1"
sharded-slab = "0.1"
bytes = "1"
tokio = { version = "1", default-features = false, features = ["rt", "sync", "time", "fs", "io-util"] }
reqwest = { version = "*", default-features = false }
onedrive-api = { version = "*", default-features = false }
tempfile = "3"
log = "0.4"
anyhow = "1"
serde = { version = "1", features = ["derive"] }
