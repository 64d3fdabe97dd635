[package]
name = "hobby_kernel"
version = "0.1.0"
edition = "2021"
publish = false

[dependencies]
limine = "=0.5.0"
paste = "=1.0.15"
seq-macro = "=0.3.6"
