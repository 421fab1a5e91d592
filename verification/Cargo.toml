[package]
name = "k_means"
version = "0.1.0"
edition = "2021"
publish = false

[dependencies]
ndarray = "0.13"
ndarray-rand = "0.11"
ndarray-stats = "0.3"
rand = "0.7"
