[package]
name = "pubg-analyzer-core"
version = "0.2.0"
edition = "2021"
publish = false

[dependencies]
flate2 = "1"
sha2 = "0.10"
hex = "0.4"
url = "2"
serde = { version = "1", features = ["derive"] }
serde_json = "1"
chrono = { version = "0.4", default-features = false, features = ["std", "alloc"] }
thiserror = "2"
tokio = { version = "1", features = ["sync", "time", "fs", "rt"] }
futures-util = "0.3"
reqwest = { version = "0.12", default-features = false, features = ["json", "gzip", "rustls-tls"] }
rusqlite = { version = "0.32", features = ["bundled"] }
keyring = "3"
