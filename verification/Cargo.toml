[package]
name = "yaadv"
version = "0.1.0"
edition = "2021"
publish = false

[dependencies]
anyhow = "1"
chrono = "0.4"
clap = { version = "4", features = ["derive"] }
colored = "2"
indicatif = "0.17"
inquire = "0.7"
ureq = "2"
