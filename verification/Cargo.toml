[package]
name = "pty_test"
version = "0.1.0"
edition = "2021"
publish = false

[dependencies]
alacritty_terminal = "*"
backtrace = "*"
crossterm = "*"
libc = "*"
log = "*"
pretty_env_logger = "*"
signal-hook = "*"
