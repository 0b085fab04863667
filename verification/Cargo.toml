[package]
name = "island_pong"
version = "0.1.0"
edition = "2021"
publish = false

[dependencies]
rand = "0.9"
dirs = "*"
serde = { version = "1", features = ["derive"] }
serde_json = "1"
