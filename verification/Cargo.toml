[package]
name = "logpipe"
version = "0.1.0"
edition = "2021"
publish = false

[dependencies]
clap = { version = "=4.6.7", features = ["derive"] }
thiserror = "=1.0.69"
tokio = { version = "=1.54.1", features = ["rt", "rt-multi-thread", "macros", "sync", "io-util", "io-std", "signal"] }
