[package]
name = "sloc"
version = "0.1.0"
edition = "2021"
publish = false

[dependencies]
ignore = "*"
memmap = "0.7"
rayon = "*"
