[package]
name = "kittens_code"
version = "0.1.0"
edition = "2021"
publish = false

[dependencies]
serde = { version = "1", features = ["derive"] }
serde_json = "1"
tokio = { version = "1", features = ["rt-multi-thread", "macros", "sync", "io-util", "io-std", "time"] }
reqwest = { version = "0.12", default-features = false }
httpdate = "1"
