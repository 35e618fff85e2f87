[package]
name = "safa_shell"
version = "0.1.0"
edition = "2021"
publish = false

[dependencies]
phf = { version = "=0.14.0", features = ["macros"] }
thiserror = "=2.0.21"
cfg-if = "=1.0.5"
