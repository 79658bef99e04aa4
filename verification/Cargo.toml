[package]
name = "utils"
version = "0.1.0"
edition = "2021"
publish = false

[dependencies]
cgmath = "0.18"
pollster = "0.2"
wgpu = "0.9"
