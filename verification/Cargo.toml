[package]
name = "pueue"
version = "0.1.0"
edition = "2021"
publish = false

[dependencies]
anyhow = "=1.0.104"
chrono = { version = "0.4", default-features = false, features = ["clock"] }
structopt = "=0.3.26"
