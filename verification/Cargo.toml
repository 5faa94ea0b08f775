[package]
name = "shader_patch"
version = "0.1.0"
edition = "2021"
publish = false

[dependencies]
regex = "1"
memchr = "2"
scroll = "*"
log = "0.4"
ndk = "*"
