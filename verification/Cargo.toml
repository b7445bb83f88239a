[package]
name = "waka"
version = "0.1.0"
edition = "2021"
publish = false

[dependencies]
alpm = "*"
anyhow = "1"
chrono = "0.4"
clap = { version = "4", features = ["derive"] }
ctrlc = "3"
serde = { version = "1", features = ["derive"] }
termsize = "0.1"
toml = "0.8"
unicode-width = "0.2"
