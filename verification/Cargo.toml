[package]
name = "chatframe"
version = "0.1.0"
edition = "2021"
publish = false

[dependencies]
itoa = "=1.0.18"
crossterm = "=0.29.0"
ctrlc = "=3.5.2"
