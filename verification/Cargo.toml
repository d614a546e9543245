[package]
name = "mashless"
version = "0.1.0"
edition = "2021"
publish = false

[dependencies]
chrono = "0.4"
tokio = { version = "1", features = ["full"] }
nvim-rs = { version = "0.9", features = ["use_tokio"] }
async-trait = "0.1"
webbrowser = "1"
