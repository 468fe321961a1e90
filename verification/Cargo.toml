[package]
name = "renderer"
version = "0.1.0"
edition = "2021"
publish = false

[dependencies]
uuid = "=0.8.2"
winit = "=0.24.0"
vulkano = "=0.20.0"
vulkano-win = "=0.20.0"
cgmath = "=0.17.0"
once_cell = "=1.21.4"
log = "=0.4.35"
simple_logger = "=1.16.0"
crossbeam = "=0.7.3"
