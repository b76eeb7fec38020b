[package]
name = "blackcap"
version = "0.1.0"
edition = "2021"
publish = false

[dependencies]
anyhow = "=1.0.104"
cpal = "=0.18.2"
crossbeam-channel = "=0.5.17"
ctrlc = "=3.5.2"
freeverb = "=0.2.0"
hound = "=3.5.1"
ratatui = "=0.30.2"
rtrb = "=0.4.1"
wasmtime = { version = "=45.0.3", default-features = false, features = ["anyhow", "component-model", "cranelift", "runtime", "std"] }
wasmtime-wasi = { version = "=45.0.3", default-features = false, features = ["p2"] }
