[package]
name = "chat_memory"
version = "0.1.0"
edition = "2021"
publish = false

[dependencies]
clap = { version = "4", features = ["derive"] }
dirs = "5"
reqwest = { version = "0.11", features = ["blocking", "json"] }
rustix = { version = "0.38", features = ["process"] }
serde = { version = "1", features = ["derive"] }
serde_json = "1"
sys-info = "0.9"
