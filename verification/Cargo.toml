[package]
name = "lattice_psbt"
version = "0.1.0"
edition = "2021"
publish = false

[dependencies]
rand = "0.8"
rand_chacha = "0.3"
bitcoin = "0.32"
psbt-v2 = "*"
thiserror = "1"
