[package]
name = "rustlp"
version = "0.1.0"
edition = "2021"
publish = false

[dependencies]
unidecode = "=0.3.0"
rusqlite = { version = "=0.40.2", features = ["bundled", "collation"] }
