[package]
name = "clacos"
version = "0.1.0"
edition = "2021"
publish = false

[dependencies]
bootloader = { version = "0.9", features = ["map_physical_memory"] }
lazy_static = { version = "1.4", features = ["spin_no_std"] }
pic8259 = "0.10"
spin = "0.9"
x86_64 = "0.14"
