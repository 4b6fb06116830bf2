[package]
name = "rtp_midi"
version = "0.1.0"
edition = "2021"
publish = false

[dependencies]
byteorder = "1"
bytes = "1"
bitstream-io = "*"
midi-types = "*"
thiserror = "*"
