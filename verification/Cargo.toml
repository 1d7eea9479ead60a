[package]
name = "raphy"
version = "0.1.0"
edition = "2021"
publish = false

[dependencies]
bit-vec = "*"
byte-slice-cast = "*"
csv = "1"
memmap2 = "*"
rand = "0.7"
rayon = "1"
