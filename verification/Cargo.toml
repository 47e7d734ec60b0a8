[package]
name = "zist"
version = "0.1.0"
edition = "2021"
publish = false

[dependencies]
zstd = "0.13"
flate2 = "1"
xz2 = "0.1"
bzip2 = "0.4"
glob = "0.3"
