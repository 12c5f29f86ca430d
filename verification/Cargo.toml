[package]
name = "nitf_viz"
version = "0.1.0"
edition = "2021"
publish = false

[dependencies]
clap = { version = "=4.6.7", features = ["derive"] }
image = { version = "=0.24.9", default-features = false, features = ["png", "gif"] }
log = "=0.4.34"
memmap2 = "=0.5.10"
ndarray = { version = "=0.15.6", features = ["rayon"] }
nitf-rs = "=0.3.1"
rayon = "=1.12.0"
sicd-rs = "=0.2.2"
simple_logger = "=5.2.0"
thiserror = "=1.0.69"
