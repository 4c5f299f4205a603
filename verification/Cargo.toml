[package]
name = "neuroevolution"
version = "0.1.0"
edition = "2021"
publish = false

[dependencies]
rand = "0.8"
nalgebra = { version = "0.32", features = ["rand"] }

[dev-dependencies]
rand_chacha = "0.3"
approx = "0.5"
