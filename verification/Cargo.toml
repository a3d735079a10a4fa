[package]
name = "refmap"
version = "0.1.0"
edition = "2021"
publish = false

[dependencies]
uuid = { version = "*", features = ["v4"] }
chrono = "*"
serde = { version = "*", features = ["derive"] }
serde_json = "*"
toml = "*"
dirs = "*"
walkdir = "*"
zip = { version = "*", default-features = false, features = ["deflate"] }
anyhow = "*"
opener = "*"
