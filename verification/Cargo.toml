[package]
name = "stream_materialize"
version = "0.1.0"
edition = "2021"
publish = false

[dependencies]
fixedbitset = "*"
pretty-xmlish = "*"
