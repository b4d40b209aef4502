[package]
name = "focus_nav"
version = "0.1.0"
edition = "2021"
publish = false

[dependencies]
rustc-hash = "=1.1.0"
bytemuck = { version = "=1.25.2", features = ["derive"] }
dioxus-html = "=0.4.3"
dioxus-native-core = "=0.4.3"
dioxus-native-core-macro = "=0.4.3"
epaint = "=0.22.0"
lyon = "=1.0.19"
once_cell = "=1.21.4"
peniko = "=0.1.1"
shipyard = "=0.6.5"
taffy = "=0.3.19"
