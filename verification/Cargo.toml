[package]
name = "baram"
version = "0.1.0"
edition = "2021"
publish = false

[dependencies]
url = "=2.5.8"
html-escape = "=0.2.15"
sha2 = "=0.10.9"
chrono = { version = "=0.4.45", features = ["serde"] }
serde = { version = "=1.0.229", features = ["derive"] }
serde_json = "=1.0.154"
tokio = { version = "=1.54.1", features = ["rt-multi-thread", "macros", "sync", "time"] }
regex = "=1.13.1"
encoding_rs = "0.8"
rand = "0.8"
reqwest = { version = "0.12", default-features = false, features = ["json"] }
axum = "0.7"
clap = { version = "4", features = ["derive"] }
