[package]
name = "cometos"
version = "0.1.0"
edition = "2021"
publish = false

[dependencies]
crossbeam-queue = "=0.2.3"
pc-keyboard = "=0.5.1"
x86_64 = { version = "0.15", default-features = false, features = ["instructions"] }
bootloader = "=0.9.35"
spin = "=0.9.9"
lazy_static = "=1.5.1"
conquer-once = "=0.3.2"
futures-util = "=0.3.34"
uart_16550 = "0.8"
volatile = "=0.2.7"
pic8259 = { version = "0.11", default-features = false, features = ["stable"] }
linked_list_allocator = "0.10"
