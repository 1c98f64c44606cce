[package]
name = "cores"
version = "0.1.0"
edition = "2021"
publish = false

[dependencies]
anyhow = "1"
hwloc = "0.5"
kernel32-sys = "0.2"
lazy_static = "1"
libc = "0.2"
log = "0.4"
winapi = "0.2"
