[package]
name = "serpent"
version = "0.1.0"
edition = "2021"
publish = false

[dependencies]
termsize = "=0.1.9"
ncurses = "=5.101.0"
