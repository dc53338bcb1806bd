[package]
name = "gws"
version = "0.3.4"
edition = "2021"
publish = false

[dependencies]
anyhow = "1"
base64 = "0.22"
clap = "4"
reqwest = { version = "0.12", default-features = false, features = ["json", "rustls-tls"] }
serde_json = "1"
thiserror = "2"
tokio = { version = "1", features = ["io-std", "io-util", "macros", "rt-multi-thread"] }
