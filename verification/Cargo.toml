[package]
name = "rocola"
version = "0.1.0"
edition = "2021"
publish = false

[dependencies]
serde = { version = "=1.0.229", features = ["derive"] }
serde_json = { version = "=1.0.154", features = ["preserve_order"] }
sha2 = "=0.11.1"
base64 = "=0.23.1"
rand = "=0.10.3"
jsonwebtoken = { version = "=11.1.0", default-features = false, features = ["use_pem", "aws_lc_rs"] }
reqwest = { version = "=0.13.5", features = ["json", "form"] }
tokio = { version = "=1.54.1", features = ["full"] }
axum = "=0.8.9"
open = "=5.4.5"
crossterm = "=0.29.0"
ratatui = "=0.30.2"
dirs = "=7.0.0"
toml = "=1.1.8"
thiserror = "=2.0.21"
anyhow = "=1.0.104"

[dev-dependencies]
aws-lc-rs = "=1.19.0"
