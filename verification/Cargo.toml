[package]
name = "spektrafilm"
version = "0.1.0"
edition = "2021"
publish = false

[dependencies]
anyhow = "=1.0.104"
blas-src = "=0.14.0"
bytemuck = { version = "=1.25.2", features = ["derive"] }
byteorder = "=1.5.0"
cblas = "=0.5.0"
clap = { version = "=4.6.7", default-features = false, features = ["std", "help", "usage", "error-context", "derive"] }
eframe = { version = "=0.31.1", default-features = false, features = ["wgpu", "default_fonts", "x11"] }
half = "=2.7.1"
image = { version = "=0.25.10", default-features = false, features = ["png", "tiff", "jpeg", "exr"] }
libm = "=0.2.16"
pollster = "=0.4.0"
rand = "=0.8.8"
rand_distr = "=0.4.3"
rand_mt = "=4.2.2"
serde = { version = "=1.0.229", features = ["derive"] }
serde_json = "=1.0.154"
thiserror = "=2.0.21"
tracing = "=0.1.44"
tracing-subscriber = { version = "=0.3.23", default-features = false, features = ["fmt", "env-filter"] }
wgpu = { version = "=24.0.5", default-features = false, features = ["wgsl"] }
