[package]
name = "momotaro"
version = "0.1.0"
edition = "2021"
publish = false

[dependencies]
pulldown-cmark = { version = "0.13", default-features = false }
sha2 = "0.10"
hex = "0.4"
unicode-normalization = "0.1"
serde = { version = "1", features = ["derive"] }
serde_json = "1"
thiserror = "2"
toml = "0.8"
walkdir = "2"
clap = { version = "4", features = ["derive"] }
rusqlite = { version = "*", features = ["bundled"] }
tantivy = "0.26"

[dev-dependencies]
tempfile = "3"
