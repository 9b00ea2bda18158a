[package]
name = "apostle"
version = "0.1.0"
edition = "2021"
publish = false

[dependencies]
chacha20poly1305 = { version = "0.10", features = ["reduced-round"] }
time = "0.3"
sled = "0.34"
