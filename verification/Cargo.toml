[package]
name = "eunix"
version = "0.1.0"
edition = "2021"
publish = false

[dependencies]
fancy-regex = "0.11"
itertools = "0.10"
chrono = "0.4"
clap = { version = "3", features = ["derive"] }
serde = { version = "1", features = ["derive"] }
serde_yaml = "0.9"
