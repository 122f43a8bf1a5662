[package]
name = "rusty_crawler"
version = "0.1.0"
edition = "2021"
publish = false

[dependencies]
scraper = "*"
url = "*"
anyhow = "*"
clap = { version = "*", features = ["derive"] }
console = "*"
env_logger = "*"
indicatif = "*"
log = "*"
reqwest = { version = "*", default-features = false }
serde = { version = "*", features = ["derive"] }
serde_json = "*"
tokio = { version = "*", features = ["rt-multi-thread", "macros", "sync", "time", "fs"] }
uuid = { version = "*", features = ["v4"] }
