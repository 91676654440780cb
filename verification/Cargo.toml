[package]
name = "moq_relay"
version = "0.1.0"
edition = "2021"
publish = false

[dependencies]
anyhow = "=1.0.104"
moq-lite = "=0.17.0"
moq-token = "=0.7.4"
tokio = { version = "=1.53.2", features = ["macros", "rt-multi-thread", "time"] }
tracing = "=0.1.44"
web-transport = "=0.12.0"
web-transport-trait = "=0.3.7"
