[package]
name = "syndote"
version = "0.1.0"
edition = "2021"
publish = false

[dependencies]
gstd = "*"
parity-scale-codec = { version = "*", default-features = false, features = ["derive"] }
scale-info = { version = "*", default-features = false, features = ["derive"] }
