[package]
name = "colcon_scan"
version = "0.1.0"
edition = "2021"
publish = false

[dependencies]
anyhow = "1"
clap = { version = "4", features = ["derive"] }
itertools = "0.12"
serde = { version = "1", features = ["derive"] }
serde-xml-rs = "0.6"
