[package]
name = "rasen_bundler"
version = "0.1.0"
edition = "2021"
publish = false

[dependencies]
anyhow = "*"
clap = { version = "*", features = ["derive"] }
oxc_resolver = "*"
rquickjs = "*"
serde_json = "*"
