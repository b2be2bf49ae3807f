[package]
name = "amph"
version = "0.1.0"
edition = "2021"
publish = false

[dependencies]
anyhow = "1"
clap = { version = "4", features = ["derive"] }
colored = "2"
comfy-table = "7"
indicatif = "0.17"
serde = { version = "1", features = ["derive"] }
serde_json = "1"
tabled = "0.15"
