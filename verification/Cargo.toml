[package]
name = "columnar_decode"
version = "0.1.0"
edition = "2021"
publish = false

[dependencies]
ethnum = "=1.5.3"
indexmap = { version = "2", features = ["serde"] }
serde = { version = "1", features = ["derive"] }
