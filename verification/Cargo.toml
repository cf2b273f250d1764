[package]
name = "ws"
version = "0.1.0"
edition = "2021"
publish = false

[dependencies]
sha1 = "*"
rand = "*"
mio = "0.6"
mio-extras = "*"
slab = "*"
url = "*"
