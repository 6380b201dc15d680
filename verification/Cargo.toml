[package]
name = "gadget_up"
version = "0.3.0"
edition = "2021"
publish = false

[dependencies]
cgmath = "0.17"
fnv = "1.0"
