[package]
name = "catnip"
version = "0.1.0"
edition = "2021"
publish = false

[dependencies]
anyhow = "1"
byteorder = "1"
ctrlc = "3"
hashbrown = "*"
histogram = "0.6"
libc = "0.2"
rand = { version = "0.7", features = ["small_rng"] }
uniset = "*"
yaml-rust = "0.4"
