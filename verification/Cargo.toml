[package]
name = "dupfi"
version = "0.1.0"
edition = "2021"
publish = false

[dependencies]
sha2 = "*"
image = { version = "*", default-features = false }
walkdir = "*"
crossbeam-channel = "*"
notify = "*"
rayon = "*"
