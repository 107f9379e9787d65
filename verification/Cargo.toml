[package]
name = "cipr"
version = "0.1.0"
edition = "2021"
publish = false

[dependencies]
id-arena = "=2.3.0"
rand = "=0.9.5"
inkwell = { version = "=0.4.0", features = ["llvm14-0-force-dynamic"] }
