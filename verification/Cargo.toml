[package]
name = "decon"
version = "0.1.0"
edition = "2021"
publish = false

[dependencies]
serde_json = "1"
sha2 = "0.10"
hex = "0.4"
serde = { version = "1", features = ["derive"] }
clap = { version = "4", features = ["derive"] }
toml = "0.8"
serde_yml = "0.0.12"
serde_yaml = "0.9"
minijinja = "2"
reqwest = { version = "0.12", default-features = false, features = ["json"] }
tokio = { version = "1", features = ["time", "sync"] }
futures = "0.3"
async-trait = "0.1"
base64 = "0.22"
flate2 = "1"
thiserror = "2"
