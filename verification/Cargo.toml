[package]
name = "copperleaf"
version = "0.1.0"
edition = "2021"
publish = false

[dependencies]
anyhow = "1"
base64 = "=0.22.1"
clap = { version = "4", features = ["derive"] }
pdf-extract = "*"
serde = { version = "1", features = ["derive"] }
serde_json = "=1.0.154"
tempfile = "3"
thiserror = "=2.0.21"
toml = "*"
