[package]
name = "bootloader"
version = "0.1.0"
edition = "2021"
publish = false

[dependencies]
x86_64 = { version = "=0.15.5", default-features = false, features = ["instructions"] }
xmas-elf = "=0.10.0"
uefi = { version = "=0.41.0", features = ["alloc", "logger"] }
log = "=0.4.35"
spin = "=0.12.3"
