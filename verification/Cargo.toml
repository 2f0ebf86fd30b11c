[package]
name = "ghpending"
version = "0.1.0"
edition = "2021"
publish = false

[dependencies]
anyhow = "=1.0.104"
chrono = { version = "=0.4.45", features = ["serde"] }
clap = { version = "=4.6.7", features = ["derive"] }
directories = "=6.0.0"
futures = "=0.3.34"
http = "=1.5.0"
http-body-util = "=0.1.5"
hyper-rustls = { version = "=0.27.10", default-features = false, features = ["http1", "native-tokio", "ring", "tls12"] }
hyper-util = { version = "=0.1.21", features = ["client-legacy", "http1", "tokio"] }
indicatif = "=0.18.6"
inquire = "=0.9.4"
octocrab = "=0.40.0"
percent-encoding = "=2.3.2"
serde = { version = "=1.0.229", features = ["derive"] }
serde_json = "=1.0.154"
thiserror = "=2.0.21"
tokio = { version = "=1.54.1", features = ["macros", "rt-multi-thread", "time"] }
toml = "=1.1.8"
