[package]
name = "swf_bitmap"
version = "0.1.0"
edition = "2021"
publish = false

[dependencies]
flate2 = "1"
gif = "0.13"
jpeg-decoder = "0.3"
png = "0.17"
