[package]
name = "ttyd_rust"
version = "0.1.0"
edition = "2021"
publish = false

[dependencies]
hostname = "*"
tokio = { version = "*", features = ["full"] }
axum = { version = "*", features = ["ws"] }
futures = "*"
bytes = "*"
nix = { version = "*", features = ["term", "process", "signal", "fs"] }
libc = "*"
anyhow = "*"

[dev-dependencies]
serde_json = "*"
