[package]
name = "jwx-rs"
version = "0.1.0"
edition = "2021"
publish = false

[dependencies]
libc = "0.2"
mlua = { version = "0.10", features = ["lua54", "vendored"] }
