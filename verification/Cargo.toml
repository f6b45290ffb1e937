[package]
name = "ryser"
version = "0.1.0"
edition = "2021"
publish = false

[dependencies]
regex = "1"
unicode-segmentation = "1"
chrono = { version = "0.4", features = ["serde"] }
uuid = { version = "1", features = ["v4"] }
serde = { version = "1", features = ["derive"] }
serde_json = "1"
anyhow = "1"
directories = "*"
once_cell = "1"
showfile = "*"
reqwest = { version = "0.12", default-features = false, features = ["json", "rustls-tls"] }
tokio = { version = "1", features = ["rt-multi-thread", "sync"] }
