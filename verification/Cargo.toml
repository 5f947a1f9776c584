[package]
name = "sheets-diff"
version = "0.1.0"
edition = "2021"
publish = false

[dependencies]
calamine = "=0.35.0"
clap = { version = "=4.6.7", features = ["derive"] }
serde = { version = "=1.0.229", features = ["derive"] }
serde_json = "=1.0.154"
