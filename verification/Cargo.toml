[package]
name = "audiacore"
version = "0.1.0"
edition = "2021"
publish = false

[dependencies]
cap-std = "*"
serde = { version = "*", features = ["derive"] }
serde_json = "*"
toml = "*"
yaml_serde = "*"
tracing = "*"
