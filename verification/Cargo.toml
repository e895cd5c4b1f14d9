[package]
name = "swine"
version = "0.1.0"
edition = "2021"
publish = false

[dependencies]
anyhow = "1"
caps = "0.5"
clap = { version = "4", features = ["derive"] }
libc = "0.2"
libseccomp = "*"
nix = { version = "0.30", features = ["fs", "hostname", "mount", "process", "ptrace", "sched", "signal", "user"] }
serde = { version = "1", features = ["derive"] }
serde_json = "1"
toml = "0.8"
