[package]
name = "rsnake"
version = "0.1.0"
edition = "2021"
publish = false

[dependencies]
clap = "2"
piston = "*"
piston2d-graphics = "*"
piston2d-opengl_graphics = "*"
pistoncore-glutin_window = "*"
rand = "0.4"
