[package]
name = "plinth"
version = "0.1.0"
edition = "2021"
publish = false

[dependencies]
arrow = { version = "*", default-features = false }
criterion = { version = "*", default-features = false }
