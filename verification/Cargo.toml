[package]
name = "seed_io"
version = "0.1.0"
edition = "2021"
publish = false

[dependencies]
base64 = "0.22"
glam = { version = "*", features = ["serde"] }
indexmap = { version = "2", features = ["serde"] }
serde = { version = "1", features = ["derive"] }
serde_json = "1"
thiserror = "*"
