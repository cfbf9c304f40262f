[package]
name = "trialsim"
version = "0.1.0"
edition = "2021"
publish = false

[dependencies]
rayon = "=1.12.0"
rand = "=0.10.3"
rand_distr = "=0.6.0"
charts-rs = { version = "=2.0.0", features = ["png"] }
