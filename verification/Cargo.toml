[package]
name = "musical_constellations"
version = "0.1.0"
edition = "2021"
publish = false

[dependencies]
sha2 = "*"

[dev-dependencies]
rand_core = "*"
rand_xoshiro = "*"
