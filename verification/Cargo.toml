[package]
name = "mishap"
version = "0.1.0"
edition = "2021"
publish = false

[dependencies]
anyhow = "*"
indent_write = "*"
serde = { version = "*", features = ["derive"] }

[dev-dependencies]
serde_json = "*"
