[package]
name = "kernel_heap"
version = "0.1.0"
edition = "2021"
publish = false

[dependencies]
spin = "=0.9.9"
linked_list_allocator = { version = "=0.9.1", default-features = false, features = ["use_spin"] }
volatile = "=0.2.7"
pc-keyboard = "=0.9.0"
