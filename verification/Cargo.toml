[package]
name = "rsbx"
version = "0.1.0"
edition = "2021"
publish = false

[dependencies]
smallvec = "1"
reed-solomon-erasure = "*"
clap = "2"
time = "0.1"
sha2 = "0.10"
