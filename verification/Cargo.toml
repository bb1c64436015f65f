[package]
name = "icns"
version = "0.1.0"
edition = "2021"
publish = false

[dependencies]
byteorder = "1"
png = "0.16"
hayro-jpeg2000 = "*"
