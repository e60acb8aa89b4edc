[package]
name = "codex-tools"
version = "0.1.11"
edition = "2021"
publish = false

[dependencies]
anyhow = "1"
base64 = "0.22"
chrono = "0.4"
dirs = "5"
percent-encoding = "2"
quick-xml = "0.36"
reqwest = { version = "0.12", default-features = false, features = ["rustls-tls", "blocking"] }
rusqlite = "0.32"
serde = { version = "1", features = ["derive"] }
serde_json = "1"
toml_edit = "0.22"
urlencoding = "2"
walkdir = "2"
