[package]
name = "rgba8888-to-rgb332"
version = "0.1.0"
edition = "2021"
publish = false

[dependencies]
clap = { version = "4", features = ["cargo"] }
image = "0.24"
