[package]
name = "singboard"
version = "0.1.0"
edition = "2021"
publish = false

[dependencies]
serde = { version = "1", features = ["derive"] }
serde_json = "1"
reqwest = { version = "0.12", default-features = false, features = ["socks"] }
hickory-resolver = "*"
tokio = { version = "1", features = ["fs", "process", "rt-multi-thread", "macros", "time"] }
lazy_static = "1"
winreg = "*"
