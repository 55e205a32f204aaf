[package]
name = "forjar"
version = "0.1.0"
edition = "2021"
publish = false

[dependencies]
blake3 = "*"
clap = { version = "*", features = ["derive"] }
serde = { version = "*", features = ["derive"] }
serde_json = "*"
serde_yaml_ng = "*"
indexmap = { version = "*", features = ["serde"] }
