[package]
name = "polite_crawler"
version = "0.1.0"
edition = "2021"
publish = false

[dependencies]
anyhow = "1"
dashmap = "5"
once_cell = "1"
reqwest = { version = "0.11", default-features = false, features = ["rustls-tls"] }
texting_robots = "0.2"
tokio = { version = "1", features = ["rt", "sync", "time"] }
tokio-util = { version = "0.7", features = ["rt"] }
tracing = "0.1"
url = "2"
