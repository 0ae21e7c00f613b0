[package]
name = "raytrace"
version = "0.1.0"
edition = "2021"
publish = false

[dependencies]
cgmath = "0.18"
rand = "0.8"
rayon = "1"
futures-channel = "0.3"
