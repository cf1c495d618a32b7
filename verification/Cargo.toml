[package]
name = "mirajazz"
version = "0.1.0"
edition = "2021"
publish = false

[dependencies]
async-hid = "0.4"
futures-lite = "2"
image = "0.25"
tokio = { version = "1", features = ["sync"] }
