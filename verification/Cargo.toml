[package]
name = "g_string"
version = "0.1.0"
edition = "2021"
publish = false

[dependencies]
zeroize = "1"
unicode-segmentation = "1"
serde = { version = "1", features = ["derive"] }

[dev-dependencies]
serde_json = "1"
