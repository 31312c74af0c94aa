[package]
name = "prism"
version = "0.1.0"
edition = "2021"
publish = false

[dependencies]
wasmer = { version = "=6.1.0", default-features = false, features = ["sys", "singlepass", "wat"] }
rand = "=0.10.3"
humantime = "=2.4.0"
serde = { version = "=1.0.229", features = ["derive"] }
serde_json = "=1.0.151"
tokio = { version = "=1.53.2", features = ["full"] }
tokio-yamux = "=0.3.20"
tokio_kcp = "=0.9.8"
quinn = "=0.11.12"
rustls = { version = "=0.23.45", default-features = false, features = ["ring", "std", "logging", "tls12"] }
rcgen = { version = "=0.14.10", default-features = false, features = ["crypto", "pem", "ring"] }
rustls-pemfile = "=2.2.0"
anyhow = "=1.0.104"
async-trait = "=0.1.92"
futures-util = "=0.3.34"
arc-swap = "=1.9.2"
toml = "=1.1.6"
serde_yaml = "=0.9.34"
