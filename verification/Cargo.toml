[package]
name = "rezmq_native"
version = "0.1.0"
edition = "2021"
publish = false

[dependencies]
libc = "0.2"
nix = { version = "0.29", features = ["poll", "socket"] }
once_cell = "1"
rustler = "0.36"
