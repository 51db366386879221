[package]
name = "dasp_rs"
version = "0.1.0"
edition = "2021"
publish = false

[dependencies]
hound = "3"
ndarray = "*"
symphonia = "0.5"
rubato = "*"
rustfft = "6"
num-complex = "0.4"
thiserror = "*"
