[package]
name = "bf_tools"
version = "0.1.0"
edition = "2021"
publish = false

[dependencies]
clap = { version = "=4.6.7", features = ["derive"] }
cranelift-codegen = "=0.134.4"
cranelift-frontend = "=0.134.4"
cranelift-jit = "=0.134.4"
cranelift-module = "=0.134.4"
cranelift-native = "=0.134.4"
cranelift-object = "=0.134.4"
target-lexicon = "=0.13.5"
minifb = "=0.29.0"
