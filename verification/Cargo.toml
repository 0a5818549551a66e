[package]
name = "cyrly"
version = "0.1.0"
edition = "2021"
publish = false

[dependencies]
ryu = "1"
urlencoding = "2"
serde_yaml = "0.9"
