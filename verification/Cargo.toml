[package]
name = "local_mlx"
version = "0.1.0"
edition = "2021"
publish = false

[dependencies]
agent-client-protocol = "*"
anyhow = "1"
futures = "0.3"
log = "0.4"
parking_lot = "0.12"
partial-json-fixer = "*"
schemars = "1"
serde = { version = "1", features = ["derive"] }
serde_json = "1"
