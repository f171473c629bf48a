[package]
name = "incubator"
version = "0.1.0"
edition = "2021"
publish = false

[dependencies]
rand = "=0.8.8"
regex = "=1.13.1"

[dev-dependencies]
combine = "4"
