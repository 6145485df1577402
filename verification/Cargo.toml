[package]
name = "rust_os"
version = "0.1.0"
edition = "2021"
publish = false

[dependencies]
pc-keyboard = "=0.3.1"
spin = "=0.12.3"
lazy_static = { version = "=1.5.1", features = ["spin_no_std"] }
multiboot2 = "=0.28.0"
x86_64 = { version = "=0.15.5", default-features = false, features = ["instructions"] }
