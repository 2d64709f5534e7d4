[package]
name = "metapurge"
version = "0.1.0"
edition = "2021"
publish = false

[dependencies]
lopdf = "=0.45.0"
zip = { version = "=0.6.6", default-features = false, features = ["deflate"] }
walkdir = "=2.5.0"
