[package]
name = "quotes_stream"
version = "0.1.0"
edition = "2021"
publish = false

[dependencies]
clap = { version = "4", features = ["derive"] }
rand = "0.8"
url = "2"
tracing = "0.1"
tracing-subscriber = "0.3"
