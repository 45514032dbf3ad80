[package]
name = "vhost_user_blk"
version = "0.1.0"
edition = "2021"
publish = false

[dependencies]
vm-memory = { version = "=0.1.2", features = ["backend-mmap"] }
virtio-bindings = "=0.1.0"
nix = "=0.17.0"
libc = "=0.2.191"
io-uring = "=0.6.4"
vhost = { version = "0.5", features = ["vhost-user-slave"] }
