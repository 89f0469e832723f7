[package]
name = "neon_serde"
version = "0.1.0"
edition = "2021"
publish = false

[dependencies]
cast = "=0.2.7"
neon = "1"
serde = "=1.0.229"
