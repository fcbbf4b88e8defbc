[package]
name = "heightmap"
version = "0.9.0"
edition = "2021"
publish = false

[dependencies]
brdb = "*"
clap = "4"
egui = "0.32"
egui-phosphor = "*"
env_logger = "*"
image = { version = "0.25", default-features = false, features = ["png", "jpeg"] }
log = "0.4"
native-dialog = "*"
poll-promise = "0.3"
rayon = "1"
ureq = "2"
