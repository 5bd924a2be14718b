[package]
name = "feedforward"
version = "0.1.0"
edition = "2021"
publish = false

[dependencies]
bytemuck = "1"
libm = "=0.2.16"
rand = "=0.8.8"
serde = "1"
serde_derive = "1"
serde_json = "1"
