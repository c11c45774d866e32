[package]
name = "ray_tracing_weekend"
version = "0.1.0"
edition = "2021"
publish = false

[dependencies]
indicatif = "0.17"
rand = "0.8"
