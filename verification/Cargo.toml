[package]
name = "privchat_gateway"
version = "0.1.0"
edition = "2021"
publish = false

[dependencies]
msgtrans = "*"
tokio = { version = "1", features = ["full"] }
seahorse = "*"
tracing = "0.1"
tracing-subscriber = "0.3"
