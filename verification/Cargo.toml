[package]
name = "raptor"
version = "0.1.0"
edition = "2021"
publish = false

[dependencies]
ar = "*"
bzip2 = "*"
debcontrol = "*"
flate2 = "*"
hex = "*"
rayon = "*"
rust-lzma = "*"
sha2 = "*"
structopt = "*"
tar = "*"
thiserror = "*"
zstd = "*"
