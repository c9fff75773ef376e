[package]
name = "redis_core"
version = "0.1.0"
edition = "2021"
publish = false

[dependencies]
hex = "*"
rand = "*"
sha1 = "*"
tokio = { version = "*", features = ["full"] }
clap = { version = "*", features = ["derive"] }
