[package]
name = "evemon"
version = "0.1.0"
edition = "2021"
publish = false

[dependencies]
anyhow = "1"
chrono = "0.4"
globset = "0.4"
fuzzy-matcher = "0.3"
parking_lot = "0.12"
serde = { version = "1", features = ["derive"] }
serde_json = "1"
rusqlite = { version = "0.32", features = ["bundled", "backup"] }
sysinfo = { version = "0.33", default-features = false, features = ["system"] }
