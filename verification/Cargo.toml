[package]
name = "merkle_tree"
version = "0.1.0"
edition = "2021"
publish = false

[dependencies]
rust-crypto = "0.2"
rayon = "*"
rand = "0.8"
num_cpus = "*"
time = "*"
