[package]
name = "mold_macho"
version = "0.1.0"
edition = "2021"
publish = false

[dependencies]
cpp_demangle = "0.4"
memchr = "2"
memmap2 = "0.9"
libc = "0.2"
rayon = "1"
