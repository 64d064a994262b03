[package]
name = "rehearsa"
version = "0.1.0"
edition = "2021"
publish = false

[dependencies]
sha2 = "0.10"
cron = "0.12"
chrono = "0.4"
serde = { version = "1", features = ["derive"] }
serde_json = "1"
serde_yaml = "0.9"
bollard = "0.16"
tokio = { version = "1", features = ["rt-multi-thread", "macros", "time", "sync"] }
futures-util = "0.3"
uuid = { version = "1", features = ["v4"] }
dirs = "5"
lettre = { version = "0.11", default-features = false, features = ["smtp-transport", "builder", "rustls-tls"] }
printpdf = "0.7"
colored = "2"
notify = "6"
anyhow = "1"
