[package]
name = "wasi_fs"
version = "0.1.0"
edition = "2021"
publish = false

[dependencies]
generational-arena = "0.2"
libc = "0.2"
wasmer-runtime-core = "0.6"
