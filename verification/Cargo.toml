[package]
name = "process"
version = "0.1.0"
edition = "2021"
publish = false

[dependencies]
anstream = "0.6"
anyhow = "1"
miette = "7"
owo-colors = "4"
portable-pty = "0.9"
thiserror = "2"
tokio = { version = "1", features = ["process", "rt"] }
tracing = "0.1"
