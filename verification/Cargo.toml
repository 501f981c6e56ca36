[package]
name = "excalibur"
version = "0.1.0"
edition = "2021"
publish = false

[dependencies]
procfs = "*"
num_cpus = "*"
