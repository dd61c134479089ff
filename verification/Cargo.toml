[package]
name = "wasm_backend"
version = "0.1.0"
edition = "2021"
publish = false

[dependencies]
walrus = "=0.19.0"
relooper = "=0.1.0"
fnv = "=1.0.7"
log = "=0.4.34"
wabt = "=0.10.0"
cranelift-codegen = "=0.80.1"
cranelift-module = "=0.80.1"

[dev-dependencies]
wasmtime = { version = "=36.0.19", default-features = false, features = ["cranelift", "runtime"] }
