[package]
name = "fixed_ring_buffer"
version = "0.1.0"
edition = "2021"
publish = false

[dependencies]
byteorder = "1"
futures = "0.3"
