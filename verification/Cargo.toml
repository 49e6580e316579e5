[package]
name = "nodian"
version = "0.1.0"
edition = "2021"
publish = false

[dependencies]
arboard = { version = "*", default-features = false }
chrono = "*"
dirs = "*"
rusqlite = { version = "*", features = ["bundled"] }
