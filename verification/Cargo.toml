[package]
name = "yggdrasilffi"
version = "0.1.0"
edition = "2021"
publish = false

[dependencies]
chrono = "*"
flatbuffers = "*"
jni = "*"
serde_json = "*"
unleash-types = "*"
unleash-yggdrasil = "*"
