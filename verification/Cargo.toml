[package]
name = "chaos_game"
version = "0.1.0"
edition = "2021"
publish = false

[dependencies]
rand = "0.8"
rand_xoshiro = "0.6"
rand_distr = "0.4"
worker-pool = "*"
dyn-clone = "1"
rust_lisp = "0.17"
clap = { version = "3", features = ["cargo"] }
ctrlc = "3"
num_cpus = "1"
image = { version = "0.24", default-features = false, features = ["png"] }
pixels = "0.9"
winit = "0.26"
winit_input_helper = "0.11"
