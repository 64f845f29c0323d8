[package]
name = "riptail"
version = "0.1.0"
edition = "2021"
publish = false

[dependencies]
anyhow = "*"
clap = { version = "*", features = ["derive"] }
colored = "*"
futures = "*"
notify = "*"
tokio = { version = "*", features = ["full"] }
