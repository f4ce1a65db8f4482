[package]
name = "tqsm"
version = "0.1.0"
edition = "2021"
publish = false

[dependencies]
regex = "=1.13.1"
fancy-regex = "=0.19.2"
unicode-segmentation = "=1.13.3"
clap = { version = "=4.6.7", features = ["derive"] }
anyhow = "=1.0.104"
