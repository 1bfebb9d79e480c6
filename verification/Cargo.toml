[package]
name = "xybrid"
version = "0.1.0"
edition = "2021"
publish = false

[dependencies]
anyhow = "1"
colored = "2"
indicatif = "0.17"
lazy_static = "1"
serde_json = "1"
flutter_rust_bridge = { version = "2", default-features = false }
