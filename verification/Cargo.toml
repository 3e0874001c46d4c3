[package]
name = "bootmenu"
version = "0.1.0"
edition = "2021"
publish = false

[dependencies]
crossterm = "*"
efivar = "*"
ez_input = "*"
nix = { version = "*", features = ["reboot"] }
