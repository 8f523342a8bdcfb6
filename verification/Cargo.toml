[package]
name = "adaptive"
version = "0.1.0"
edition = "2021"
publish = false

[dependencies]
crossbeam-utils = "*"
num_cpus = "*"
rand = "*"
rayon = "*"
