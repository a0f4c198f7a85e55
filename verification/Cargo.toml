[package]
name = "esytheism"
version = "0.1.0"
edition = "2021"
publish = false

[dependencies]
num-traits = "0.2"
rayon = "1"
rand = "0.6"
quicksilver = { version = "0.3", default-features = false, features = ["fonts"] }
