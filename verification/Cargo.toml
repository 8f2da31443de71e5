[package]
name = "wifiscanner"
version = "0.5.1"
edition = "2021"
publish = false

[dependencies]
anyhow = "1"
serde_json = "1"
