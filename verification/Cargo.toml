[package]
name = "presciidoc"
version = "0.1.0"
edition = "2021"
publish = false

[dependencies]
bpaf = { version = "=0.9.28", features = ["derive"] }
color-eyre = "=0.6.5"
log = "=0.4.34"
simplelog = "=0.12.2"

[dev-dependencies]
regex = "=1.13.1"
