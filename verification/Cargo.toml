[package]
name = "vexy_glob"
version = "0.1.0"
edition = "2021"
publish = false

[dependencies]
globset = "*"
regex = "*"
crossbeam-channel = "*"
num_cpus = "*"
ignore = "*"
once_cell = "*"
rayon = "*"
