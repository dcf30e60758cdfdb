[package]
name = "fund_helper"
version = "0.1.0"
edition = "2021"
publish = false

[dependencies]
serde_json = "1"
scraper = "*"
reqwest = { version = "*", default-features = false, features = ["blocking"] }
postgres = "*"
serde = { version = "1", features = ["derive"] }
serde_yaml = "*"
clap = "*"
