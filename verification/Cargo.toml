[package]
name = "mori"
version = "0.1.0"
edition = "2021"
publish = false

[dependencies]
markdown = "*"
mlua = { version = "*", features = ["lua54", "vendored"] }
clap = "*"
fs_extra = "*"
