[package]
name = "nakamoto-net-poll"
version = "0.1.0"
edition = "2021"
publish = false

[dependencies]
bip324 = "0.5.0"
crossbeam-channel = "0.5"
libc = "0.2"
log = "0.4"
popol = "2.2.0"
socket2 = "0.4"
