[package]
name = "plane"
version = "0.1.0"
edition = "2021"
publish = false

[dependencies]
chrono = "*"
rand = "*"
serde = { version = "*", features = ["derive"] }
serde_json = "*"
rusqlite = { version = "*", features = ["bundled"] }
anyhow = "*"
