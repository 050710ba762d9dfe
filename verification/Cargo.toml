[package]
name = "live_downloader"
version = "0.1.0"
edition = "2021"
publish = false

[dependencies]
chrono = "0.4"
url = "2"
uuid = { version = "1", features = ["v4"] }
serde = { version = "1", features = ["derive"] }
serde_json = "1"
rusqlite = { version = "0.31", features = ["bundled"] }
directories = "5"
tokio = { version = "1", features = ["process", "time", "sync", "macros", "rt"] }
tokio-util = "0.7"
