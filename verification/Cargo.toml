[package]
name = "tiny_msg"
version = "0.1.0"
edition = "2021"
publish = false

[dependencies]
cfb = "*"
chrono = { version = "0.4", default-features = false, features = ["std"] }
compressed-rtf = "*"
thiserror = "*"
