[package]
name = "chariot_client"
version = "0.1.0"
edition = "2021"
publish = false

[dependencies]
glam = "=0.21.3"
bytemuck = "=1.25.2"
naga = { version = "*", features = ["wgsl-in"] }
