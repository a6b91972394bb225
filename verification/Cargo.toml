[package]
name = "docker_tray"
version = "0.1.0"
edition = "2021"
publish = false

[dependencies]
serde = { version = "1", features = ["derive"] }
serde_json = "1"
bollard = "0.18"
futures-util = "0.3"
dirs = "*"
