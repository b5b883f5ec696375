[package]
name = "shiguredo_container"
version = "0.1.0"
edition = "2021"
publish = false

[dependencies]
nojson = "*"
base64ct = { version = "*", features = ["alloc"] }
shiguredo_http11 = "*"
