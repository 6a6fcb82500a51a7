[package]
name = "syncpool"
version = "0.2.0"
edition = "2021"
publish = false

[dependencies]
crossbeam-channel = "0.5"
