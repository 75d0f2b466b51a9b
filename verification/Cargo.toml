[package]
name = "fractal_render"
version = "0.1.0"
edition = "2021"
publish = false

[dependencies]
num = "0.4"
gtk = "0.18"
gdk = "0.18"
gdk-pixbuf = "0.18"
cairo-rs = "0.18"
