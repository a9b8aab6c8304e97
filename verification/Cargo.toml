[package]
name = "ribir_core"
version = "0.1.0"
edition = "2021"
publish = false

[dependencies]
indextree = "4"
serde = { version = "1", features = ["derive"] }
serde_json = "1"
dirs = "*"
