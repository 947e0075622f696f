[package]
name = "zerochannel"
version = "0.1.0"
edition = "2021"
publish = false

[dependencies]
shared_memory = "0.12"
libc = "0.2"
numpy = "0.27"
pyo3 = { version = "0.27", features = ["abi3-py311", "extension-module"] }
windows-sys = { version = "0.61", features = ["Win32_Foundation", "Win32_System_Threading"] }
