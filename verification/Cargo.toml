[package]
name = "lc"
version = "1.0.0"
edition = "2021"
publish = false

[dependencies]
clap = "=2.34.0"
infer = { version = "=0.22.0", default-features = false }
