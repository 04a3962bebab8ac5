[package]
name = "line_backup_native"
version = "0.1.0"
edition = "2021"
publish = false

[dependencies]
sha2 = "0.10"
anyhow = "1"
serde = { version = "1", features = ["derive"] }
serde_json = "1"
clap = { version = "4", features = ["derive"] }
rusqlite = { version = "*", features = ["bundled", "backup"] }
walkdir = "2"
zip = { version = "*", default-features = false, features = ["deflate"] }
