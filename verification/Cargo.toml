[package]
name = "haberlendir"
version = "0.1.0"
edition = "2021"
publish = false

[dependencies]
feed-rs = "2"
html-escape = "0.2"
chrono = { version = "0.4", features = ["serde"] }
serde = { version = "1", features = ["derive"] }
axum = "0.8"
tokio = { version = "1", features = ["full"] }
mongodb = "3"
reqwest = { version = "0.12", default-features = false, features = ["rustls-tls"] }
futures = "0.3"
log = "0.4"
pretty_env_logger = "0.5"
dotenvy = "0.15"
clokwerk = "0.4"
tower-http = { version = "0.6", features = ["cors", "fs"] }

[dev-dependencies]
regex = "1"
