[package]
name = "nakala"
version = "0.1.0"
edition = "2021"
publish = false

[dependencies]
miette = { version = "5", features = ["fancy"] }
thiserror = "1"
reedline = "*"
