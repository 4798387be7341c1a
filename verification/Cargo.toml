[package]
name = "engine_sound"
version = "0.1.0"
edition = "2021"
publish = false

[dependencies]
cpal = "=0.13.5"
oddio = "=0.1.1"
wav = "=0.5.0"
