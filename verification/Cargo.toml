[package]
name = "mining"
version = "0.1.0"
edition = "2021"
publish = false

[dependencies]
colored = "=3.1.1"
cranelift = "=0.130.2"
cranelift-codegen = "=0.130.2"
cranelift-jit = "=0.130.2"
cranelift-module = "=0.130.2"
