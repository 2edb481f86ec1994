[package]
name = "rt-graph"
version = "0.3.0"
edition = "2021"
publish = false

[dependencies]
cairo-rs = "=0.8.1"
env_logger = "=0.7.1"
gdk = "=0.12.1"
gio = "=0.8.1"
glib = "=0.9.3"
glium = "0.27"
gtk = "=0.8.1"
log = "=0.4.34"
