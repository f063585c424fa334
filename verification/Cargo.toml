[package]
name = "project_watcher"
version = "0.1.0"
edition = "2021"
publish = false

[dependencies]
anyhow = "=1.0.104"
notify = "=5.0.0-pre.10"
tokio = { version = "=1.54.1", features = ["rt", "sync", "time"] }
