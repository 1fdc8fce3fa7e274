[package]
name = "jtag"
version = "0.1.0"
edition = "2021"

[dependencies]
bitvec = "1"
ftdi = "*"
ftdi-mpsse = "*"
rusb = "*"
