[package]
name = "libzeroengine"
version = "0.1.0"
edition = "2021"
publish = false

[dependencies]
bincode = "1.3"
ddsfile = "0.5"
image_dds = "*"
lunify = "*"
