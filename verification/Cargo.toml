[package]
name = "oxd"
version = "0.2.0"
edition = "2021"
publish = false

[dependencies]
clap = { version = "4", features = ["derive"] }
colored = "2"
reqwest = { version = "0.11", features = ["blocking"] }
rodio = "0.17"
serde = { version = "1", features = ["derive"] }
serde_json = "1"
