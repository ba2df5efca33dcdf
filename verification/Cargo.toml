[package]
name = "rowhammer"
version = "0.1.0"
edition = "2021"
publish = false

[dependencies]
byteorder = "1"
capstone = "*"
chrono = "*"
colored = "*"
ctrlc = "*"
elf = "*"
env_logger = "*"
hostname = "*"
libc = "0.2"
log = "0.4"
mmap = "*"
nix = "*"
serde = { version = "1", features = ["derive"] }
serde_json = "1"
toml = "*"
