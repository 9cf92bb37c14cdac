[package]
name = "kernel"
version = "0.1.0"
edition = "2021"
publish = false

[dependencies]
bytesize = "=2.7.0"
embedded-graphics = "=0.8.2"
limine = "=0.5.0"
smallvec = "=1.16.5"
spin = "=0.12.3"
talc = "=5.1.1"
x86_64 = { version = "=0.15.5", default-features = false, features = ["instructions"] }
