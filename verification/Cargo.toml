[package]
name = "display_backends"
version = "0.1.0"
edition = "2021"
publish = false

[dependencies]
libc = "*"
spidev = "*"
gpiocdev-uapi = "*"
gpiocdev = "*"
embedded-graphics = "*"
