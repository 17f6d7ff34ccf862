[package]
name = "sw_logger"
version = "0.1.0"
edition = "2021"
publish = false

[dependencies]
axum = { version = "0.6", features = ["ws"] }
base64 = "0.21"
clap = { version = "4", features = ["derive"] }
eframe = { version = "0.23", default-features = false, features = ["default_fonts", "glow"] }
egui = "0.23"
egui_extras = "0.23"
egui_file = "0.11"
egui_plot = "0.23"
env_logger = "0.10"
ewebsock = "0.4"
futures = "0.3"
log = "0.4"
pretty_env_logger = "0.5"
rmp-serde = "1"
serde = { version = "1", features = ["derive"] }
serde_json = "1"
tokio = { version = "1", features = ["full"] }
tower-http = { version = "0.4", features = ["fs"] }
wasm-bindgen-futures = "0.4"
