[package]
name = "phi_avx512"
version = "0.1.0"
edition = "2021"
publish = false

[dependencies]
anyhow = "1"
clap = { version = "4", features = ["derive"] }
iced-x86 = "1.21"
libc = "0.2"
