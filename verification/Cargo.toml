[package]
name = "downloader"
version = "0.1.0"
edition = "2021"
publish = false

[dependencies]
indexmap = "2"
uuid = { version = "1", features = ["v4"] }
bytes = "1"
log = "0.4"
log4rs = "1"
reqwest = "0.12"
serde = { version = "1", features = ["derive"] }
tempfile = "3"
tokio = { version = "1", features = ["full"] }
warp = "0.3"
