[package]
name = "spring_reverb"
version = "0.1.0"
edition = "2021"
publish = false

[dependencies]
hound = "3"
once_cell = "1"
rustfft = "6"
vst = "0.2"
