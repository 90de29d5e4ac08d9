[package]
name = "goud_engine"
version = "0.1.0"
edition = "2021"
publish = false

[dependencies]
rustc-hash = "2"
cgmath = "0.18"
bytemuck = "1"
log = "0.4"
