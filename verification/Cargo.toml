[package]
name = "jlink_swd"
version = "0.1.0"
edition = "2021"
publish = false

[dependencies]
jaylink = "*"
log = "0.4"

[dev-dependencies]
bitvec = "1"
