[package]
name = "zmem"
version = "0.1.0"
edition = "2021"
publish = false

[dependencies]
clap = { version = "*", features = ["derive"] }
colored = "*"
futures = "*"
tokio = { version = "*", features = ["rt-multi-thread", "macros"] }
