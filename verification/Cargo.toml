[package]
name = "santa_translator"
version = "0.1.0"
edition = "2021"
publish = false

[dependencies]
bimap = "0.6"
clap = { version = "4", features = ["derive"] }
