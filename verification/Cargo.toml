[package]
name = "dg_compiler"
version = "0.1.0"
edition = "2021"
publish = false

[dependencies]
lexpar = "=0.1.0"
llvm-sys = { version = "=140.1.3", features = ["prefer-dynamic"] }
libc = "=0.2.191"
