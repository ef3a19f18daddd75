[package]
name = "cljrs_compiler"
version = "0.1.0"
edition = "2021"

[dependencies]
cranelift-codegen = "0.130.2"
cranelift-frontend = "0.130.2"
cranelift-module = "0.130.2"
cranelift-native = "0.130.2"
cranelift-object = "0.130.2"
