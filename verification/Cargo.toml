[package]
name = "ytterbium"
version = "0.1.0"
edition = "2021"
publish = false

[dependencies]
rand = "=0.10.3"
rosc = "=0.11.4"
clap = "=4.6.7"
portmidi = "=0.3.0"
rb = "=0.4.1"
