[package]
name = "sandpit"
version = "0.1.0"
edition = "2021"
publish = false

[dependencies]
nimix = "0.2.0"
higher-kinded-types = "*"
crossbeam-channel = "*"
