[package]
name = "swan_kernel"
version = "0.1.0"
edition = "2021"
publish = false

[dependencies]
x86_64 = { version = "=0.14.13", default-features = false, features = ["instructions"] }
hashbrown = "=0.14.5"
linked_list_allocator = { version = "=0.10.6", default-features = false, features = ["use_spin"] }
raw-cpuid = "=11.6.0"
spin = "=0.9.9"
lazy_static = "=1.5.1"
pc-keyboard = "=0.5.1"
futures-util = { version = "=0.3.34", default-features = false, features = ["alloc"] }
bootloader = { version = "=0.9.35", features = ["map_physical_memory"] }
bootloader_api = "=0.11.17"
