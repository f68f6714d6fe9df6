[package]
name = "tin"
version = "0.1.0"
edition = "2021"
publish = false

[dependencies]
chrono = "*"
uuid = { version = "*", features = ["v4"] }
serde = { version = "*", features = ["derive"] }
serde_json = "*"
once_cell = "*"
tokio = { version = "*", features = ["rt", "rt-multi-thread", "time", "macros"] }
