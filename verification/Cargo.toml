[package]
name = "rdsd2pcm"
version = "0.1.0"
edition = "2021"
publish = false

[dependencies]
flac-codec = "=1.3.3"
id3 = "=1.16.3"
log = "=0.4.35"
