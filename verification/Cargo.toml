[package]
name = "lightbeam_backend"
version = "0.1.0"
edition = "2021"
publish = false

[dependencies]
cranelift-codegen = "0.59"
dynasm = "1"
dynasmrt = "1"
wasmparser = "0.39"
