[package]
name = "swage"
version = "0.1.0"
edition = "2021"
publish = false

[dependencies]
rand = "0.9"
pagemap2 = "*"
lpfs = "*"
libc = "0.2"
log = "0.4"
thiserror = "*"
serde = { version = "1", features = ["derive"] }
serde_json = "1"
nalgebra = "*"
itertools = "*"
lazy_static = "1"
