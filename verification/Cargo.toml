[package]
name = "soundfonts"
version = "0.1.0"
edition = "2021"
publish = false

[dependencies]
wmidi = "=3.1.0"
rand = "=0.7.3"
log = "=0.4.34"
jack = "=0.6.6"
sndfile = "=0.1.1"
lv2 = "=0.6.0"
lv2-worker = "=0.1.1"
