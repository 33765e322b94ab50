[package]
name = "file_dedup"
version = "0.1.0"
edition = "2021"
publish = false

[dependencies]
fasthash = "=0.4.0"
csv = "=1.4.0"
walkdir = "=2.5.0"
clap = { version = "=4.6.7", features = ["derive"] }
humantime = "=2.4.0"
