[package]
name = "vm_snapshot"
version = "0.1.0"
edition = "2021"
publish = false

[dependencies]
displaydoc = "0.2"
kvm-bindings = "*"
kvm-ioctls = "0.24"
libc = "0.2"
semver = "1"
serde = { version = "1", features = ["derive"] }
serde_json = "1"
thiserror = "2"
userfaultfd = "*"
vmm-sys-util = "*"
