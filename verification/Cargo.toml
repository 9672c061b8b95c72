[package]
name = "pipechan"
version = "0.1.0"
edition = "2021"
publish = false

[dependencies]
nix = "0.26"
bincode = "1"
serde = { version = "1", features = ["derive"] }
tokio = { version = "1", features = ["net", "rt"] }
futures = "0.3"
