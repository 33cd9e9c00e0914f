[package]
name = "tspsolver"
version = "0.1.0"
edition = "2021"
publish = false

[dependencies]
rust_decimal = { version = "1", default-features = false, features = ["std", "maths"] }
rand = "0.7"
metaheuristics = "*"
num_cpus = "1"
time = "*"
clap = "2"
