[package]
name = "mips_2d_qt"
version = "0.1.0"
edition = "2021"
publish = false

[dependencies]
rand = "=0.9.5"
num-complex = "=0.4.6"
nalgebra = "=0.35.0"
serde = { version = "=1.0.229", features = ["derive"] }
toml = "=1.1.8"
clap = { version = "=4.6.7", features = ["derive"] }
ndarray = "=0.17.2"
hdf5-metno = "=0.15.1"
fs2 = "=0.4.3"
rayon = "=1.12.0"
