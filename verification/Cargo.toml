[package]
name = "grafium_core"
version = "0.1.0"
edition = "2021"
publish = false

[dependencies]
regex = "=1.13.1"
scraper = "=0.29.0"
ego-tree = "=0.11.1"
pulldown-cmark = { version = "=0.13.6", default-features = false }
sha2 = "=0.10.9"
serde = { version = "=1.0.229", features = ["derive"] }
serde_json = "=1.0.154"
chrono = "=0.4.45"
uuid = { version = "=1.29.0", features = ["v4"] }
zip = { version = "*", default-features = false, features = ["deflate"] }
