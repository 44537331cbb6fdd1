[package]
name = "aguda_rs"
version = "0.1.0"
edition = "2021"
publish = false

[dependencies]
strsim = "=0.11.1"
colored = "=2.2.0"
clap = { version = "=4.6.7", features = ["derive"] }
inkwell = { version = "=0.11.0", features = ["llvm14-0-no-llvm-linking"] }
