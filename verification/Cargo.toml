[package]
name = "titan"
version = "0.1.0"
edition = "2021"
publish = false

[dependencies]
arrayvec = "0.7"
bytemuck = "1"
hdrhistogram = { version = "7", default-features = false }
mio = { version = "0.8", features = ["os-poll", "net"] }
quanta = "0.12"
