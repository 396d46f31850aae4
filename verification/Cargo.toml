[package]
name = "asset_registry_codec"
version = "0.1.0"
edition = "2021"
publish = false

[dependencies]
byteorder = "1"
itertools = "0.13"
color-eyre = "0.6"
fs-err = "2"
tracing = "0.1"
ser-hex = "*"
