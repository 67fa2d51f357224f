[package]
name = "pyro_model"
version = "0.1.0"
edition = "2021"
publish = false

[dependencies]
rand = "=0.8.8"
serde = { version = "=1.0.229", features = ["derive"] }
anyhow = "=1.0.104"
batbox-file = "=0.16.0"
