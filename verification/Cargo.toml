[package]
name = "athena"
version = "0.1.0"
edition = "2021"
publish = false

[dependencies]
bootloader_api = "=0.11.17"
critical-section = { version = "=1.2.0", features = ["restore-state-bool"] }
limine = "=0.5.0"
log = "=0.4.34"
num_enum = "=0.7.6"
x86_64 = { version = "=0.15.5", default-features = false, features = ["instructions"] }
