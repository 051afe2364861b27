[package]
name = "rtw"
version = "0.1.0"
edition = "2021"
publish = false

[dependencies]
image = { version = "0.24", default-features = false, features = ["jpeg"] }
rand = "0.8"
rayon = "1"
