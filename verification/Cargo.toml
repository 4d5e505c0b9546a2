[package]
name = "android_manifest"
version = "0.1.0"
edition = "2021"
publish = false

[dependencies]
serde = { version = "=1.0.229", features = ["derive"] }
xml-rs = "=0.8.29"
yaserde = "=0.12.0"
yaserde_derive = "=0.12.0"
