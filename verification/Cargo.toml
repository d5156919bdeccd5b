[package]
name = "sysmaster_exts"
version = "0.1.0"
edition = "2021"
publish = false

[dependencies]
nix = { version = "=0.27.1", default-features = false, features = ["user", "hostname", "signal", "fs", "dir", "process", "ioctl", "mount", "time", "event", "reboot"] }
libc = "=0.2.191"
shell-words = "=1.1.1"
regex = "=1.13.1"
toml = "=0.5.11"
serde = { version = "=1.0.229", features = ["derive"] }
fnmatch-regex = "=0.3.2"
wait-timeout = "=0.2.1"
xattr = "=1.7.0"
clap = { version = "=3.2.25", features = ["derive"] }
procfs = { version = "0.12", default-features = false }
