[package]
name = "iklink"
version = "0.1.0"
edition = "2021"
publish = false

[dependencies]
rand = "=0.10.3"
linfa = "=0.8.1"
linfa-clustering = "=0.8.1"
ndarray = "=0.16.1"
k = "=0.32.0"
urdf-rs = "=0.10.0"
nalgebra = "=0.35.0"
csv = "=1.4.0"
glob = "=0.3.4"
