[package]
name = "humble-cli"
version = "0.1.0"
edition = "2021"
publish = false

[dependencies]
anyhow = "=1.0.104"
byte-unit = "=5.2.6"
chrono = { version = "=0.4.45", features = ["serde"] }
clap = { version = "=3.2.25", features = ["cargo"] }
clap_complete = "=3.2.5"
dirs = "=5.0.1"
futures-util = "=0.3.34"
indicatif = "=0.17.11"
reqwest = { version = "=0.12.28", features = ["blocking", "json", "stream"] }
scraper = "=0.29.0"
serde = { version = "=1.0.229", features = ["derive"] }
serde_json = "=1.0.154"
serde_with = "=3.24.0"
tabled = "=0.15.0"
thiserror = "=1.0.69"
tokio = { version = "=1.54.1", features = ["rt", "rt-multi-thread", "time"] }
