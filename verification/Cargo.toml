[package]
name = "darkdm"
version = "0.1.0"
edition = "2021"
publish = false

[dependencies]
url = "2"
urlencoding = "2"
scraper = "*"
reqwest = { version = "0.12", default-features = false, features = ["stream", "gzip", "rustls-tls"] }
tokio = { version = "1", features = ["full"] }
async-trait = "0.1"
futures-util = "0.3"
serde = { version = "1", features = ["derive"] }
serde_json = "1"
clap = { version = "4.5", features = ["derive"] }
tracing = "0.1"
tracing-subscriber = { version = "0.3", features = ["env-filter"] }
tracing-appender = "0.2"
chrono = "0.4"
libc = "0.2"
tiny_http = "0.12"
