[package]
name = "panamax"
version = "0.1.0"
edition = "2021"
publish = false

[dependencies]
sha2 = "0.10"
serde = { version = "1", features = ["derive"] }
serde_json = "1"
toml = "0.8"
thiserror = "1"
clap = { version = "4", features = ["derive"] }
git2 = { version = "*", default-features = false }
reqwest = { version = "*", default-features = false }
tokio = { version = "1", features = ["full"] }
futures = "0.3"
futures-util = "0.3"
warp = { version = "0.3", default-features = false, features = ["tls"] }
bytes = "1"
tokio-stream = "0.1"
tokio-util = { version = "0.7", features = ["codec"] }
walkdir = "2"
