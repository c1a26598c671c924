[package]
name = "ultimate_tic_tac_toe"
version = "0.1.0"
edition = "2021"
publish = false

[dependencies]
instant = "0.1"
rand = "0.8"
rand_chacha = "0.3"
substring = "1"
thiserror = "1"
wasm-bindgen = "0.2"
