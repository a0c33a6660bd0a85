[package]
name = "hyperbug"
version = "0.1.0"
edition = "2021"
publish = false

[dependencies]
kvm-bindings = { version = "*", features = ["fam-wrappers"] }
kvm-ioctls = "*"
libc = "*"
libloading = "*"
pyo3 = { version = "*", features = ["auto-initialize"] }
seccompiler = "*"
vmm-sys-util = "*"
