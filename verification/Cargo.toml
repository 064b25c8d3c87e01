[package]
name = "sp_nlb"
version = "0.1.0"
edition = "2021"
publish = false

[dependencies]
pnet = "0.35"
tokio = { version = "1", features = ["full"] }
anyhow = "1"
tracing = "0.1"
tracing-subscriber = "0.3"
