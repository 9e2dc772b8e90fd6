[package]
name = "nn_classifier"
version = "0.1.0"
edition = "2021"
publish = false

[dependencies]
crossbeam = "*"
simple_parallel = "*"
