[package]
name = "rustimizer"
version = "0.1.0"
edition = "2021"
publish = false

[dependencies]
clap = { version = "=4.6.7", features = ["derive"] }
rustc_apfloat = "=0.2.3+llvm-462a31f5a5ab"
ieee-apsqrt = "*"
