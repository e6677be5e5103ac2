[package]
name = "epd_spectra"
version = "0.1.0"
edition = "2021"
publish = false

[dependencies]
embedded-graphics = "0.8"
embedded-hal = "1"
thiserror = "1"
