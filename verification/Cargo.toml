[package]
name = "pisnge"
version = "0.1.0"
edition = "2021"
publish = false

[dependencies]
clap = { version = "*", features = ["derive"] }
font-kit = "*"
resvg = "*"
rusttype = "*"
svg = "*"
