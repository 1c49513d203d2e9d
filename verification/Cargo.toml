[package]
name = "luma"
version = "0.1.0"
edition = "2021"
publish = false

[dependencies]
zeroize = "1"
pam-client2 = "*"
uzers = "*"
wayland-client = "0.31"
wayland-protocols = { version = "0.32", features = ["client", "staging"] }
wayland-protocols-wlr = { version = "0.3", features = ["client"] }
smithay-client-toolkit = "0.20"
calloop = "0.14"
calloop-wayland-source = "0.4"
chrono = "0.4"
serde = { version = "1", features = ["derive"] }
toml = "*"
ab_glyph = "0.2"
epaint_default_fonts = "*"
eframe = { version = "*", default-features = false, features = ["glow", "wayland"] }
