[package]
name = "shatterfield"
version = "0.1.0"
edition = "2021"
publish = false

[dependencies]
macroquad = "*"
nalgebra = "*"
slotmap = "*"
