[package]
name = "ronin_make"
version = "0.1.0"
edition = "2021"
publish = false

[dependencies]
bstr = "1"
rustix = { version = "1", features = ["thread"] }
tempfile = "3"
