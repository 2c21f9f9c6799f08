[package]
name = "decoderv1"
version = "0.1.0"
edition = "2021"
publish = false

[dependencies]
chrono = "0.4"
image = { version = "*", default-features = false, features = ["png"] }
indicatif = "0.17"
rayon = "1"
zip = { version = "*", default-features = false, features = ["deflate"] }
