[package]
name = "csv-audit-tool"
version = "0.1.0"
edition = "2021"
publish = false

[dependencies]
csv = "1"
serde = { version = "1", features = ["derive"] }
serde_json = "1"
cursive = { version = "0.21", default-features = false, features = ["crossterm-backend"] }
