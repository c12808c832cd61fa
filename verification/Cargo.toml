[package]
name = "deployment_bingo"
version = "0.1.0"
edition = "2021"
publish = false

[dependencies]
log = "=0.4.34"
quad-rand = "=0.2.3"
rust-argon2 = { version = "=3.0.0", default-features = false }
spacetimedb = "=1.12.0"
yew = { version = "=0.21.0", features = ["csr"] }
