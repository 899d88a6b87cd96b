[package]
name = "amnis"
version = "0.1.0"
edition = "2021"
publish = false

[dependencies]
async-stream = "*"
async-trait = "*"
bytes = "*"
futures = "*"
pin-project-lite = "*"
tokio = { version = "*", features = ["io-std", "io-util", "macros", "rt-multi-thread", "sync"] }
tokio-stream = "*"
