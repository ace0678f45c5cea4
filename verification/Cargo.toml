[package]
name = "webscraping"
version = "0.1.0"
edition = "2021"
publish = false

[dependencies]
clap = { version = "4", features = ["derive"] }
futures-util = "0.3"
rand = "0.9"
rayon = "1"
reqwest = { version = "0.12", features = ["blocking"] }
scraper = "*"
seekstorm = { version = "*", default-features = false }
serde = { version = "1", features = ["derive"] }
serde_json = "1"
tokio = { version = "1", features = ["rt-multi-thread", "macros"] }
