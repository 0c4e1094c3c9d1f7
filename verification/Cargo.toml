[package]
name = "audio_downloader"
version = "0.1.0"
edition = "2021"
publish = false

[dependencies]
serde_json = "*"
scraper = "*"
serde = { version = "*", features = ["derive"] }
tokio = { version = "*", features = ["rt-multi-thread", "sync", "macros", "fs", "io-util"] }
reqwest = { version = "*", default-features = false }
lofty = "*"
