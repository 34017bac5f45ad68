[package]
name = "guineu"
version = "0.1.0"
edition = "2021"
publish = false

[dependencies]
font8x8 = { version = "0.3", default-features = false }
lazy_static = { version = "1", features = ["spin_no_std"] }
spin = "0.9"
