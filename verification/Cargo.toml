[package]
name = "rwer"
version = "0.1.0"
edition = "2021"
publish = false

[dependencies]
rapidfuzz = "*"
unicode-segmentation = "*"
zhconv = "*"
jieba-rs = "*"
clap = { version = "4", features = ["derive"] }
