[package]
name = "dot_txt"
version = "0.1.0"
edition = "2021"
publish = false

[dependencies]
line_drawing = "*"
vector2d = "*"
utf8-chars = "*"
