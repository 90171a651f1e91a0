[package]
name = "ylc"
version = "0.1.0"
edition = "2021"
publish = false

[dependencies]
rand = "=0.9.5"
inkwell = { version = "=0.5.0", features = ["llvm14-0-prefer-dynamic"] }
