[package]
name = "cantellation"
version = "0.1.0"
edition = "2021"
publish = false

[dependencies]
clap = { version = "=4.6.7", features = ["derive"] }
num-traits = "=0.2.19"
obj = "=0.10.2"
rayon = "=1.12.0"
smallvec = "=1.16.4"
