[package]
name = "dupescan"
version = "0.1.0"
edition = "2021"
publish = false

[dependencies]
md-5 = "0.10"
clap = { version = "3", features = ["derive"] }
env_logger = "0.10"
futures = "0.3"
log = "0.4"
rusqlite = "0.29"
tokio = { version = "1", features = ["rt-multi-thread", "macros"] }
walkdir = "2"
