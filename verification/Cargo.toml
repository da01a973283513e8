[package]
name = "moxi"
version = "0.1.0"
edition = "2021"
publish = false

[dependencies]
unicode-segmentation = "1"
anyhow = "1"
clap = { version = "4", features = ["derive"] }
