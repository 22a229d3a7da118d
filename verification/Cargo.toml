[package]
name = "rush"
version = "0.1.0"
edition = "2021"
publish = false

[dependencies]
anyhow = "1"
chumsky = "0.10"
gc = { version = "0.5", features = ["derive"] }
os_pipe = "1"
