[package]
name = "nnos"
version = "0.1.0"
edition = "2021"
publish = false

[dependencies]
fdt = "*"
ext4plus = "=0.1.0-rc.2"
async-trait = "*"
critical-section = "*"
libm = "*"
embedded-alloc = "*"
panic-halt = "*"
