[package]
name = "deploy_sync"
version = "0.1.0"
edition = "2021"
publish = false

[dependencies]
chrono = "0.4"
cron = "*"
rayon = "1"
serde = { version = "1", features = ["derive"] }
serde_json = "1"
sha2 = "0.10"
ssh2 = "0.9"
suppaftp = "*"
uuid = { version = "1", features = ["v4"] }
walkdir = "2"
