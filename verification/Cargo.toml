[package]
name = "dice"
version = "0.1.0"
edition = "2021"
publish = false

[dependencies]
allocative = "*"
anyhow = "1"
dashmap = "5"
dupe = "*"
either = "1"
fnv = "1"
gazebo = "*"
itertools = "0.10"
libc = "0.2"
parking_lot = "0.12"
starlark_map = "*"
thiserror = "1"
tracing = "0.1"
