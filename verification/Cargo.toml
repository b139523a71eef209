[package]
name = "pelanca"
version = "0.1.0"
edition = "2021"
publish = false

[dependencies]
rand = "=0.8.8"
rayon = "=1.12.0"
num_cpus = "=1.17.0"
fxhash = "=0.2.1"
