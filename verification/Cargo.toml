[package]
name = "asterinas"
version = "0.1.0"
edition = "2021"
publish = false

[dependencies]
anymap3 = { version = "=1.1.0", features = ["hashbrown"] }
bitvec = { version = "=1.1.1", default-features = false, features = ["alloc"] }
log = "=0.4.35"
x86 = "=0.52.0"
