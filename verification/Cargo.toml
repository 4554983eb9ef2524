[package]
name = "mult_lib"
version = "0.1.0"
edition = "2021"
publish = false

[dependencies]
libc = "0.2"
home = "*"
bincode = "1"
serde = { version = "1", features = ["derive"] }
daemonize = "*"
notify = "*"
prettytable-rs = "*"
term = "*"
