[package]
name = "nuke_modules"
version = "0.1.0"
edition = "2021"
publish = false

[dependencies]
anyhow = "*"
async-recursion = "*"
clap = { version = "*", features = ["derive"] }
inquire = "*"
tokio = { version = "*", features = ["rt-multi-thread", "fs", "sync", "macros"] }
tracing = "*"
tracing-subscriber = { version = "*", features = ["env-filter"] }
