[package]
name = "saltlick"
version = "0.1.0"
edition = "2021"
publish = false

[dependencies]
byteorder = "1"
bytes = "0.4"
sodiumoxide = "0.2"

[dev-dependencies]
rand = "0.7"
rand_xorshift = "0.2"
