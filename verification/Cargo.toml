[package]
name = "fragrance_vault"
version = "0.1.0"
edition = "2021"
publish = false

[dependencies]
scraper = "0.20"
serde_json = "1"
serde = { version = "1", features = ["derive"] }
dirs = "5"
rusqlite = { version = "0.31", features = ["bundled"] }
ureq = "2"
