[package]
name = "krun_devices"
version = "0.1.0"
edition = "2021"
publish = false

[dependencies]
nix = { version = "=0.30.1", default-features = false, features = ["term"] }
vm-memory = { version = "=0.16.2", default-features = false, features = ["backend-mmap"] }
