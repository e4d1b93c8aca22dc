[package]
name = "nyan"
version = "0.1.0"
edition = "2021"
publish = false

[dependencies]
log = "0.4"
uefi = { version = "0.33", default-features = false, features = ["alloc"] }
