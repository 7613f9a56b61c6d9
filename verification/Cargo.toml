[package]
name = "nanorand"
version = "0.8.0"
edition = "2021"
publish = false

[dependencies]
getrandom = "0.2"
zeroize = { version = "1", features = ["zeroize_derive"] }

[dev-dependencies]
c2-chacha = "0.3"
hex = "0.4"
