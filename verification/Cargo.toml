[package]
name = "sfce"
version = "0.1.0"
edition = "2021"
publish = false

[dependencies]
fumen = "*"
anyhow = "1"
bincode = "1"
clap = { version = "4", features = ["derive"] }
serde = { version = "1", features = ["derive"] }
