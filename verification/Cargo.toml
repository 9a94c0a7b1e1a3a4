[package]
name = "os_core"
version = "0.1.0"
edition = "2021"
publish = false

[dependencies]
riscv = "*"
bitflags = "1.2.1"
lazy_static = "1.4.0"
