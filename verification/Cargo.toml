[package]
name = "arabi_vm"
version = "0.1.0"
edition = "2021"
publish = false

[dependencies]
base64 = "0.22"
regex = "1"
serde_json = "1"
rand = "0.8"
ureq = "2"
