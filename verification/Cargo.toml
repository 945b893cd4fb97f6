[package]
name = "aicommit"
version = "0.1.0"
edition = "2021"
publish = false

[dependencies]
chrono = { version = "*", features = ["serde"] }
clap = { version = "*", features = ["derive"] }
dialoguer = "*"
dirs = "*"
reqwest = { version = "*", default-features = false, features = ["json", "rustls-tls"] }
serde = { version = "*", features = ["derive"] }
serde_json = "*"
tokio = { version = "*", features = ["rt-multi-thread", "macros", "time", "fs"] }
uuid = { version = "*", features = ["v4"] }
