[package]
name = "gol_rust"
version = "0.1.0"
edition = "2021"
publish = false

[dependencies]
timeit = "0.1"
