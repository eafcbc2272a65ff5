[package]
name = "server_manager"
version = "0.1.0"
edition = "2021"
publish = false

[dependencies]
uuid = { version = "*", features = ["v4"] }
regex = "*"
tokio = { version = "*", features = ["macros", "rt-multi-thread", "process", "io-util", "time", "sync", "fs", "signal"] }
tokio-stream = { version = "*", features = ["io-util"] }
serde = { version = "*", features = ["derive"] }
serde_json = "*"
reqwest = { version = "*", default-features = false, features = ["json"] }
clap = { version = "*", features = ["derive"] }
home = "*"
log = "*"
anyhow = "*"
