[package]
name = "oxbow"
version = "0.1.0"
edition = "2021"
publish = false

[dependencies]
limine = "0.5"
spin = "0.9"
uart_16550 = "0.3"
x86_64 = { version = "0.15", default-features = false, features = ["instructions"] }
