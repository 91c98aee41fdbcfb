[package]
name = "remove_dir_all"
version = "0.1.0"
edition = "2021"
publish = false

[dependencies]
clap = { version = "*", features = ["derive"] }
cvt = "*"
env_logger = "*"
fs_at = "*"
libc = "*"
log = "*"
rayon = "*"
