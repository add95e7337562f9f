[package]
name = "pvf_host"
version = "0.1.0"
edition = "2021"
publish = false

[dependencies]
futures = "0.3"
blake2 = "0.10"
rand = "0.8"
