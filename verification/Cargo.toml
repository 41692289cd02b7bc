[package]
name = "tiles2048"
version = "0.1.0"
edition = "2021"
publish = false

[dependencies]
ndarray = "=0.15.6"
rand = "=0.8.8"
bevy = { version = "=0.5.0", default-features = false, features = ["render"] }
# The derive crates of bevy 0.5.0 build only where the `full` feature of
# syn 1 is switched on for them. These two releases of tracing, which bevy
# depends on, switch it on; nothing else here uses them.
tracing = "=0.1.26"
tracing-attributes = "=0.1.15"
