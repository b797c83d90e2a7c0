[package]
name = "helix_base"
version = "0.1.0"
edition = "2021"
publish = false

[dependencies]
log = "0.4"
parking_lot = "0.12"
tokio = { version = "1", default-features = false, features = ["sync"] }
unicode-segmentation = "1"
unicode-width = "0.2"
