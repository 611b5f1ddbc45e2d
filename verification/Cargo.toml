[package]
name = "rlox"
version = "0.1.0"
edition = "2021"
publish = false

[dependencies]
exitcode = "1"
rustc_apfloat = "0.2"
thiserror = "1"
