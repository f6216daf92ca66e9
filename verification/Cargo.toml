[package]
name = "groon"
version = "0.1.0"
edition = "2021"
publish = false

[dependencies]
actix-web = "4"
clap = { version = "4", features = ["env"] }
env_logger = "0.11"
log = "0.4"
markdown = "*"
thiserror = "2"
tokio = { version = "1", features = ["fs", "sync"] }
