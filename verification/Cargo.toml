[package]
name = "oxidux"
version = "0.1.0"
edition = "2021"
publish = false

[dependencies]
shellexpand = "=2.1.2"
tokio = { version = "=1.53.2", features = ["full"] }
hyper = { version = "=0.14.32", features = ["full"] }
nix = { version = "=0.27.1", features = ["signal", "fs", "process", "user"] }
serde = { version = "=1.0.229", features = ["derive"] }
toml = "=0.5.11"
dirs = "=4.0.0"
ansi_term = "=0.12.1"

[dev-dependencies]
serde_json = "=1.0.151"
