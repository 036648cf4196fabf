[package]
name = "rusty_heap_alloc"
version = "0.1.0"
edition = "2021"
publish = false

[dependencies]
thiserror = "1.0"
