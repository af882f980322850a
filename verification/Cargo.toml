[package]
name = "bookmark_sync"
version = "0.1.0"
edition = "2021"
publish = false

[dependencies]
url = "2"
scraper = "*"
serde = { version = "1", features = ["derive"] }
serde_json = "1"
uuid = { version = "1", features = ["v4"] }
chrono = "0.4"
rusqlite = { version = "*", features = ["bundled"] }
plist = "1"
reqwest = { version = "0.12", default-features = false, features = ["blocking", "rustls-tls"] }
r2d2 = "0.8"
r2d2_postgres = "0.18"
git2 = { version = "*", default-features = false }
keyring = { version = "3", default-features = false }
