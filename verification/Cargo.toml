[package]
name = "jack_fourier"
version = "0.1.0"
edition = "2021"
publish = false

[dependencies]
ringbuf = "=0.2.8"
rustfft = "=6.4.1"
jack = "=0.11.4"
vizia = { version = "=0.3.0", default-features = false, features = ["winit", "x11"] }
