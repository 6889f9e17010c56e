[package]
name = "pmd_sir0"
version = "0.1.0"
edition = "2021"
publish = false

[dependencies]
byteorder = "1"
io_partition = "*"
thiserror = "1"
