[package]
name = "stemmefil"
version = "0.1.0"
edition = "2021"
publish = false

[dependencies]
midly = "0.5"
midir = "0.9"
eframe = "0.18"
image = "0.24"
