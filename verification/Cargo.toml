[package]
name = "wgpu_layers"
version = "0.1.0"
edition = "2021"
publish = false

[dependencies]
earcutr = "*"
wgpu = "*"
bytemuck = "*"
bytemuck_derive = "*"
