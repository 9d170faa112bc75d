[package]
name = "simtpu"
version = "0.1.0"
edition = "2021"
publish = false

[dependencies]
anyhow = "1"
num-traits = "0.2"
serde = { version = "1", features = ["derive"] }
thiserror = "2"
yaml_serde = "*"
