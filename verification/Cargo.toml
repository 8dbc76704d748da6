[package]
name = "headlint"
version = "0.1.0"
edition = "2021"
publish = false

[dependencies]
imagesize = "0.13"
ratatui = "0.29"
regex = "1"
scraper = "0.20"
serde = { version = "1", features = ["derive"] }
serde_json = "1"
unicode-width = "0.2"
ureq = "2"
url = "2"
