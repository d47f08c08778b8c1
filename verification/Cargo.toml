[package]
name = "demiurge"
version = "0.8.0"
edition = "2021"
publish = false

[dependencies]
cairo-rs = { version = "0.20", features = ["png"] }
calloop = "*"
libc = "0.2"
pango = "0.20"
pangocairo = "0.20"
serde = { version = "1", features = ["derive"] }
serde_json = "1"
smithay = { version = "*", default-features = false, features = ["backend_winit", "renderer_gl", "wayland_frontend"] }
toml = "0.8"
tracing = "0.1"
tracing-subscriber = { version = "0.3", features = ["env-filter"] }
wayland-client = "0.31"
wayland-protocols-wlr = { version = "0.3", features = ["client"] }
x11rb = { version = "0.13", features = ["randr", "render", "xkb", "screensaver"] }
zbus = "4"
