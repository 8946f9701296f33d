[package]
name = "binja_patterns"
version = "0.1.0"
edition = "2021"
publish = false

[dependencies]
patterns = "*"
log = "0.4"
static_init = "1"
pyo3 = "*"
binaryninja = "*"
binaryninjacore-sys = "*"
