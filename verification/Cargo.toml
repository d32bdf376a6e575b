[package]
name = "oblivion_session"
version = "0.1.0"
edition = "2021"
publish = false

[dependencies]
anyhow = "1"
tokio = { version = "1", features = ["macros", "rt-multi-thread", "process", "time", "fs", "io-util", "signal"] }
