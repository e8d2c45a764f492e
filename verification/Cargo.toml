[package]
name = "file_finder"
version = "0.1.0"
edition = "2021"
publish = false

[dependencies]
regex = "*"
fuzzy-matcher = "*"
nucleo-matcher = "*"
chrono = "*"
rusqlite = { version = "*", features = ["bundled"] }
walkdir = "*"
dirs = "*"
opener = "*"
serde = { version = "*", features = ["derive"] }
serde_json = "*"
