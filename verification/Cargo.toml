[package]
name = "drawing"
version = "0.1.0"
edition = "2021"
publish = false

[dependencies]
cairo-rs = { version = "0.9", features = ["png"] }
gdk = "0.13"
gio = "0.9"
glib = "0.10"
gtk = "0.9"
