[package]
name = "perceptron"
version = "0.1.0"
edition = "2021"
publish = false

[dependencies]
image = "=0.25.10"
jaime = "=2.2.0"
piston_window = "=0.134.2"
rand = "=0.8.8"
tqdm = "=0.8.1"
vecmath = "=1.0.0"

[dev-dependencies]
rand_chacha = "=0.3.1"
