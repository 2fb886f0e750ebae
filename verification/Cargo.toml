[package]
name = "token_ceiling"
version = "0.1.0"
edition = "2021"
publish = false

[dependencies]
async-trait = "0.1"
bytes = "1"
http = "=1.5.0"
serde = { version = "1", features = ["derive"] }
serde_yaml = "0.9"
tracing = "0.1"
