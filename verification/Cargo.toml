[package]
name = "rev_init"
version = "0.1.0"
edition = "2021"
publish = false

[dependencies]
nix = { version = "*", features = ["signal", "process", "fs"] }
chrono = "*"
croner = "*"
tokio = { version = "*", features = ["rt-multi-thread", "net", "io-util", "macros", "sync", "time"] }
clap = { version = "*", features = ["derive"] }
signal-hook = "*"
walkdir = "*"
