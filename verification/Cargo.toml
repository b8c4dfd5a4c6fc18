[package]
name = "maze_core"
version = "0.1.0"
edition = "2021"
publish = false

[dependencies]
risc0-zkvm = { version = "*", default-features = false }
sha2 = "*"
serde = { version = "*", features = ["derive"] }
serde_json = "*"
