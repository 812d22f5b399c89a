[package]
name = "synthkit"
version = "0.1.0"
edition = "2021"
publish = false

[dependencies]
dsp = { version = "=0.11.0", default-features = false }
num-complex = "=0.4.6"
hound = "=3.5.1"
