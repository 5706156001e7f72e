[package]
name = "vmm_event"
version = "0.1.0"
edition = "2021"
publish = false

[dependencies]
anyhow = "=1.0.104"
thiserror = "=1.0.69"
log = "=0.4.35"
libc = "=0.2.191"
nix = { version = "=0.26.4", default-features = false, features = ["poll", "signal", "time", "fs", "event"] }
vmm-sys-util = "=0.11.2"
kvm-ioctls = "=0.13.0"
kvm-bindings = { version = "=0.6.0", features = ["fam-wrappers"] }
