[package]
name = "fieldsig"
version = "0.1.0"
edition = "2021"
publish = false

[dependencies]
bbs = "*"
serde_json = "*"
jsonpointer_flatten = "*"
