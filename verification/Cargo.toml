[package]
name = "virtiofsd"
version = "0.1.0"
edition = "2021"
publish = false

[dependencies]
bitflags = "1.3"
crossbeam-channel = "0.5"
libc = "0.2"
log = "0.4"
notify = "6.1"
vhost = { version = "0.10", features = ["vhost-user-backend"] }
vm-memory = "0.14"
