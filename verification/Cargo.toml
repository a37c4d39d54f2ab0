[package]
name = "rust_os"
version = "0.1.0"
edition = "2021"
publish = false

[dependencies]
crossbeam-queue = "=0.3.14"
pc-keyboard = "=0.7.0"
x86_64 = { version = "=0.15.5", default-features = false, features = ["instructions"] }
pic8259 = "=0.11.0"
uart_16550 = "=0.3.2"
volatile = "=0.2.7"
spin = "=0.9.9"
lazy_static = "=1.5.1"
conquer-once = "=0.4.0"
futures-util = "=0.3.34"
bootloader = { version = "=0.9.35", features = ["map_physical_memory"] }
