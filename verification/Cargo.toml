[package]
name = "gdb_flash"
version = "0.1.0"
edition = "2021"
publish = false

[dependencies]
quick-xml = "0.31"
user32-sys = "0.2"
winapi = "0.2"
