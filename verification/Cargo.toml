[package]
name = "alchemy"
version = "0.1.0"
edition = "2021"
publish = false

[dependencies]
rand = "0.8"
serde = { version = "1", features = ["derive"] }
thiserror = "1"
crossbeam-utils = "0.8"
flurry = "0.4"
congee = "*"
libc = "0.2"
once_cell = "1"
rand_distr = "0.4"
zipf = "7"
selfsimilar = "*"
thread_local = "1"
