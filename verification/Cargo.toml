[package]
name = "delta_fs"
version = "0.1.0"
edition = "2021"
publish = false

[dependencies]
tokio = { version = "1", features = ["rt-multi-thread", "sync"] }
async-trait = "0.1"
bytes = "1"
futures = "0.3"
chrono = "0.4"
