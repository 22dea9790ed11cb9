[package]
name = "didi"
version = "0.1.0"
edition = "2021"
publish = false

[dependencies]
ansi_term = "0.12"
chrono = "0.4"
clap = "2"
dirs = "*"
hex = "0.4"
rusqlite = "*"
sha2 = "0.10"
termsize = "*"
text_io = "*"
whoami = "1"
