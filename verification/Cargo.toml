[package]
name = "rsprof"
version = "0.1.0"
edition = "2021"
publish = false

[dependencies]
rustc-demangle = "*"
humantime = "*"
rusqlite = { version = "*", features = ["bundled"] }
gimli = "*"
object = "*"
memmap2 = "*"
libc = "*"
clap = { version = "*", features = ["derive"] }
ctrlc = "*"
chrono = "*"
