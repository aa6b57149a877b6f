[package]
name = "kesko"
version = "0.1.0"
edition = "2021"
publish = false

[dependencies]
bevy = { version = "0.8", default-features = false, features = ["render"] }
bevy_egui = { version = "0.16", default-features = false }
fnv = "1"
iyes_loopless = "0.7"
nalgebra = "0.31"
rapier3d = "0.14"
serde = { version = "1", features = ["derive"] }
serde_json = "1"
serde_traitobject = "0.2"
pyo3 = "0.17"
