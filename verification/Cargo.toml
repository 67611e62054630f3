[package]
name = "zip_cracker"
version = "0.1.0"
edition = "2021"
publish = false

[dependencies]
clap = { version = "4", features = ["derive"] }
crossbeam-channel = "0.5"
indicatif = "0.17"
num_cpus = "1"
rayon = "1"
zip = { version = "0.6", default-features = false, features = ["deflate"] }
