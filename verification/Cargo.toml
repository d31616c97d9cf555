[package]
name = "webdav_fuse"
version = "0.1.0"
edition = "2021"
publish = false

[dependencies]
chrono = "=0.4.45"
roxmltree = "=0.21.1"
fuser = { version = "=0.14.0", default-features = false }
libc = "=0.2.191"
rustydav = "=0.1.3"
env_logger = "=0.11.11"
log = "=0.4.34"
